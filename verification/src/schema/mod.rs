//! The schema: typed fields bound to resolvers, and how a request runs
//! against them.
use crate::ast;
use crate::ast::{Document, Grouped, OperationDefinition, Selection};
use crate::error::{Error, Failure};
use crate::keyed::StrMap;
use crate::schema::executor::{
    expands_within, mid, selected, selections_expand_within, FragmentMap, Fragments, Selected,
};
use crate::schema::resolve::{outcome, Outcome, QLContext, Store};
use crate::schema::root::{MutationMap, QueryMap, RootField};
use crate::schema::storage::TypeStorage;
use crate::value::{deep, lemma_view_object, DataValue, Value};
use vstd::prelude::*;

pub mod executor;
pub mod field;
pub mod laws;
pub mod resolve;
pub mod root;
pub mod spreads;
pub mod storage;
pub mod types;

verus! {

/// Stands for a part of a schema that the engine does not offer.
#[derive(Clone, Copy, Debug, PartialEq, Eq, Structural)]
pub struct NotSupported;

/// A schema: the queries and mutations that a request can call, and the
/// registry of the types that they name. Execution only reads it.
pub struct Schema {
    /// Tells one schema from another.
    pub id: String,
    pub description: Option<String>,
    pub queries: QueryMap,
    pub mutations: Option<MutationMap>,
    pub subscritions: Option<NotSupported>,
    pub type_storage: TypeStorage,
}

/// The key of a requested field in the response: its alias where it has
/// one, else its name.
pub open spec fn response_key(field: ast::Field) -> Seq<char> {
    match field.alias {
        Some(alias) => alias@,
        None => field.name@,
    }
}

/// The result of an operation as a value: the object of its fields.
pub open spec fn object_of(r: Selected) -> Outcome {
    match r {
        Ok(fields) => Ok(Value::Object(fields)),
        Err(e) => Err(e),
    }
}

/// A result in the envelope of a response: an object that holds it under the
/// key `data`.
pub open spec fn enveloped(r: Outcome) -> Outcome {
    match r {
        Ok(v) => Ok(Value::Object(Map::<Seq<char>, Value>::empty().insert("data"@, v))),
        Err(e) => Err(e),
    }
}

/// Whether the operation at `i` is the only one called `s`.
pub open spec fn sole(ops: Seq<OperationDefinition>, s: Seq<char>, i: int) -> bool {
    &&& 0 <= i < ops.len()
    &&& ops[i].named(s)
    &&& forall|j: int| 0 <= j < ops.len() && j != i ==> !(#[trigger] ops[j]).named(s)
}

/// The position of the only operation called `s`.
pub open spec fn the_sole(ops: Seq<OperationDefinition>, s: Seq<char>) -> int {
    choose|i: int| sole(ops, s, i)
}

/// Whether one of the operations has no name.
pub open spec fn has_anonymous(ops: Seq<OperationDefinition>) -> bool {
    exists|i: int| 0 <= i < ops.len() && (#[trigger] ops[i]).name() is None
}

/// The operation that a request runs, by its position among the operations
/// of the document, for the operation name that came with the request.
///
/// A document without operations runs none. A single operation is run where
/// no name came or its own name came. Of several operations, none of which
/// may be anonymous, the one is run that alone has the name that came.
pub open spec fn chosen(ops: Seq<OperationDefinition>, name: Option<Seq<char>>) -> Result<
    Option<int>,
    Failure,
> {
    if ops.len() == 0 {
        Ok(None)
    } else if ops.len() == 1 {
        match name {
            None => Ok(Some(0)),
            Some(s) => if ops[0].named(s) {
                Ok(Some(0))
            } else {
                Err(Failure::NotFoundError("operation "@ + s))
            },
        }
    } else if has_anonymous(ops) {
        Err(Failure::MustBeDefinedAnonymousOperation)
    } else {
        match name {
            None => Err(Failure::MultipleOperationNeedTarget),
            Some(s) => if exists|i: int| sole(ops, s, i) {
                Ok(Some(the_sole(ops, s)))
            } else {
                Err(Failure::MultipleOperationNeedTarget)
            },
        }
    }
}

/// The characters of an operation name that may be missing.
pub open spec fn asked(operation_name: Option<&str>) -> Option<Seq<char>> {
    match operation_name {
        Some(s) => Some(s@),
        None => None,
    }
}

/// What the choice of an operation holds.
pub open spec fn choice(r: Result<Option<usize>, Error>) -> Result<Option<int>, Failure> {
    match r {
        Ok(Some(i)) => Ok(Some(i as int)),
        Ok(None) => Ok(None),
        Err(e) => Err(e@),
    }
}

/// Chooses the operation that a request runs.
pub fn choose_operation(ops: &Vec<OperationDefinition>, operation_name: Option<&str>) -> (out:
    Result<Option<usize>, Error>)
    ensures
        choice(out) == chosen(ops@, asked(operation_name)),
{
    let n = ops.len();
    if n == 0 {
        return Ok(None);
    }
    if n == 1 {
        return match operation_name {
            None => Ok(Some(0)),
            Some(s) => {
                if ops[0].is_named(s) {
                    Ok(Some(0))
                } else {
                    Err(Error::NotFoundError(String::from_str("operation ").concat(s)))
                }
            },
        };
    }
    let mut i: usize = 0;
    while i < n
        invariant
            n == ops@.len(),
            n >= 2,
            0 <= i <= n,
            forall|j: int| 0 <= j < i ==> (#[trigger] ops@[j]).name() is Some,
        decreases n - i,
    {
        if ops[i].get_name().is_none() {
            return Err(Error::MustBeDefinedAnonymousOperation);
        }
        i = i + 1;
    }
    assert(!has_anonymous(ops@));
    match operation_name {
        None => Err(Error::MultipleOperationNeedTarget),
        Some(s) => {
            let mut found: Option<usize> = None;
            let mut k: usize = 0;
            while k < n
                invariant
                    n == ops@.len(),
                    n >= 2,
                    0 <= k <= n,
                    operation_name == Some(s),
                    !has_anonymous(ops@),
                    match found {
                        Some(f) => f < k && ops@[f as int].named(s@) && forall|j: int|
                            0 <= j < k && j != f ==> !(#[trigger] ops@[j]).named(s@),
                        None => forall|j: int| 0 <= j < k ==> !(#[trigger] ops@[j]).named(s@),
                    },
                decreases n - k,
            {
                if ops[k].is_named(s) {
                    match found {
                        Some(f) => {
                            proof {
                                assert forall|i: int| !sole(ops@, s@, i) by {
                                    if sole(ops@, s@, i) {
                                        if i == f as int {
                                            assert(ops@[k as int].named(s@));
                                        } else {
                                            assert(ops@[f as int].named(s@));
                                        }
                                    }
                                }
                            }
                            return Err(Error::MultipleOperationNeedTarget);
                        },
                        None => {
                            found = Some(k);
                        },
                    }
                }
                k = k + 1;
            }
            match found {
                Some(f) => {
                    proof {
                        laws::lemma_the_named_one_is_chosen(ops@, s@, f as int);
                    }
                    Ok(Some(f))
                },
                None => {
                    proof {
                        assert forall|i: int| !sole(ops@, s@, i) by {}
                    }
                    Err(Error::MultipleOperationNeedTarget)
                },
            }
        },
    }
}

impl Schema {
    /// What resolving the selections of an operation from position `i` on
    /// may do, against the root fields `registry`, where `acc` holds the
    /// fields built so far. Each requested field is executed by the root
    /// field of its name and stands in the result under its alias, or under
    /// its name where it has none; a name that the registry does not hold is
    /// a failure. A fragment's selections are resolved in place, into the
    /// same fields; an inline fragment is a failure.
    pub open spec fn operates(
        self,
        registry: Map<Seq<char>, RootField>,
        label: Seq<char>,
        frags: Fragments,
        sels: Seq<Selection>,
        i: int,
        acc: Store,
        fuel: nat,
        c0: Store,
        c1: Store,
        out: Selected,
    ) -> bool
        decreases fuel, sels.len() - i,
    {
        if i < 0 || i >= sels.len() {
            c1 == c0 && out == Ok::<Store, Failure>(acc)
        } else {
            match sels[i] {
                Selection::Field(field) => if !registry.contains_key(field.name@) {
                    c1 == c0 && out == Err::<Store, Failure>(
                        Failure::NotFoundError(label + " api "@ + field.name@),
                    )
                } else {
                    exists|cm: Store, r: Outcome| #[trigger]
                        registry[field.name@].executes(self, frags, field, fuel, c0, cm, r)
                            && match r {
                            Err(e) => c1 == cm && out == Err::<Store, Failure>(e),
                            Ok(v) => self.operates(
                                registry,
                                label,
                                frags,
                                sels,
                                i + 1,
                                acc.insert(response_key(field), v),
                                fuel,
                                cm,
                                c1,
                                out,
                            ),
                        }
                },
                Selection::FragmentSpread(fs) => {
                    let name = fs.fragment_name@;
                    if !frags.contains_key(name) {
                        c1 == c0 && out == Err::<Store, Failure>(Failure::NoSuchFragment(name))
                    } else if fuel == 0 {
                        false
                    } else {
                        exists|cm: Store, r: Selected| #[trigger]
                            mid(cm, r) && self.operates(
                                registry,
                                label,
                                frags,
                                frags[name].selection_set.items@,
                                0,
                                acc,
                                (fuel - 1) as nat,
                                c0,
                                cm,
                                r,
                            ) && match r {
                                Err(e) => c1 == cm && out == Err::<Store, Failure>(e),
                                Ok(merged) => self.operates(
                                    registry,
                                    label,
                                    frags,
                                    sels,
                                    i + 1,
                                    merged,
                                    fuel,
                                    cm,
                                    c1,
                                    out,
                                ),
                            }
                    }
                },
                Selection::InlineFragment(_) => c1 == c0 && out == Err::<Store, Failure>(
                    Failure::UnSupportedYetError("'InlineFragment' in query(selection sets)"@),
                ),
            }
        }
    }

    /// What running an operation may do. Its result is the object of its
    /// fields. A query and a bare selection set run against the queries, a
    /// mutation against the mutations, which the schema must have; a
    /// subscription is refused.
    pub open spec fn runs(
        self,
        frags: Fragments,
        op: OperationDefinition,
        fuel: nat,
        c0: Store,
        c1: Store,
        out: Outcome,
    ) -> bool {
        match op {
            OperationDefinition::Subscription(_) => c1 == c0 && out == Err::<Value, Failure>(
                Failure::UnSupportedYetError("'Subscription' in schema request"@),
            ),
            OperationDefinition::Mutation(m) => match self.mutations {
                None => c1 == c0 && out == Err::<Value, Failure>(
                    Failure::MutationSchemaNotDefined,
                ),
                Some(mutations) => exists|r: Selected| #[trigger]
                    self.operates(
                        mutations@,
                        "Mutation"@,
                        frags,
                        op.items(),
                        0,
                        Map::empty(),
                        fuel,
                        c0,
                        c1,
                        r,
                    ) && out == object_of(r),
            },
            _ => exists|r: Selected| #[trigger]
                self.operates(
                    self.queries@,
                    "Query"@,
                    frags,
                    op.items(),
                    0,
                    Map::empty(),
                    fuel,
                    c0,
                    c1,
                    r,
                ) && out == object_of(r),
        }
    }

    /// What answering a request may do: the operations of the document are
    /// checked to differ in kind or name, the operation that the request
    /// names is chosen and run, and its result comes back in the envelope
    /// of a response. A document without operations is answered with null.
    pub open spec fn answers(
        self,
        doc: Document,
        operation_name: Option<Seq<char>>,
        fuel: nat,
        c0: Store,
        c1: Store,
        out: Outcome,
    ) -> bool {
        let ops = doc.operations();
        if exists|j: int| ast::first_repeat(ops, j) {
            c1 == c0 && exists|j: int| #[trigger]
                ast::first_repeat(ops, j) && out == Err::<Value, Failure>(
                    Failure::OnlyOneOperationCanNamed(ops[j].name_text()),
                )
        } else {
            self.answers_grouped(doc.fragments(), ops, operation_name, fuel, c0, c1, out)
        }
    }
}

impl Grouped {
    /// Whether the fragment spreads of every operation are expanded after at
    /// most `fuel` spreads inside one another.
    pub open spec fn expands_within(self, fuel: nat) -> bool {
        forall|k: int|
            0 <= k < self.operations@.len() ==> expands_within(
                self.fragments@,
                (#[trigger] self.operations@[k]).items(),
                fuel,
            )
    }

    /// Whether the fragment spreads of every operation come to an end.
    pub open spec fn spreads_end(self) -> bool {
        exists|fuel: nat| self.expands_within(fuel)
    }

    /// Tests whether the fragment spreads of every operation are expanded
    /// after at most `limit` spreads inside one another.
    pub fn expand_within(&self, limit: usize) -> (b: bool)
        ensures
            b == self.expands_within(limit as nat),
            b ==> self.spreads_end(),
    {
        let mut k: usize = 0;
        while k < self.operations.len()
            invariant
                0 <= k <= self.operations@.len(),
                forall|j: int|
                    0 <= j < k ==> expands_within(
                        self.fragments@,
                        (#[trigger] self.operations@[j]).items(),
                        limit as nat,
                    ),
            decreases self.operations@.len() - k,
        {
            if !selections_expand_within(&self.fragments, self.operations[k].get_items(), limit) {
                return false;
            }
            k = k + 1;
        }
        true
    }
}

impl Grouped {
    /// Tests whether the fragment spreads of every operation come to an end.
    pub fn ends(&self) -> (b: bool)
        ensures
            b == self.spreads_end(),
    {
        proof {
            use_type_invariant(&self.fragments);
            self.fragments.lemma_keys();
            if self.spreads_end() {
                let fuel = choose|fuel: nat| self.expands_within(fuel);
                assert forall|k: int| 0 <= k < self.operations@.len() implies expands_within(
                    self.fragments@,
                    (#[trigger] self.operations@[k]).items(),
                    self.fragments@.dom().len(),
                ) by {
                    assert(expands_within(
                        self.fragments@,
                        self.operations@[k].items(),
                        fuel,
                    ));
                    spreads::lemma_fragments_are_fuel_enough(
                        self.fragments@,
                        self.operations@[k].items(),
                    );
                }
            }
        }
        self.expand_within(self.fragments.len())
    }
}

impl Document {
    /// Whether the fragment spreads of every operation are expanded after at
    /// most `fuel` spreads inside one another.
    pub open spec fn expands_within(self, fuel: nat) -> bool {
        forall|k: int|
            0 <= k < self.operations().len() ==> expands_within(
                self.fragments(),
                (#[trigger] self.operations()[k]).items(),
                fuel,
            )
    }

    /// Whether the fragment spreads of every operation come to an end.
    pub open spec fn spreads_end(self) -> bool {
        exists|fuel: nat| self.expands_within(fuel)
    }
}

/// One step of an operation: where the root field of the selection at `i`
/// fails, the operation fails with it from `i` on.
pub proof fn lemma_operates_fails(
    schema: Schema,
    registry: Map<Seq<char>, RootField>,
    label: Seq<char>,
    frags: Fragments,
    sels: Seq<Selection>,
    i: int,
    acc: Store,
    fuel: nat,
    c0: Store,
    c1: Store,
    e: Failure,
)
    requires
        0 <= i < sels.len(),
        sels[i] is Field,
        registry.contains_key(sels[i]->Field_0.name@),
        registry[sels[i]->Field_0.name@].executes(
            schema,
            frags,
            sels[i]->Field_0,
            fuel,
            c0,
            c1,
            Err(e),
        ),
    ensures
        schema.operates(registry, label, frags, sels, i, acc, fuel, c0, c1, Err(e)),
{
}

/// One step of an operation: where the root field of the selection at `i`
/// gives `v`, what the selections after it do with `v` among the fields is
/// what the operation does from `i` on.
pub proof fn lemma_operates_goes_on(
    schema: Schema,
    registry: Map<Seq<char>, RootField>,
    label: Seq<char>,
    frags: Fragments,
    sels: Seq<Selection>,
    i: int,
    acc: Store,
    fuel: nat,
    c0: Store,
    cm: Store,
    v: Value,
    c1: Store,
    out: Selected,
)
    requires
        0 <= i < sels.len(),
        sels[i] is Field,
        registry.contains_key(sels[i]->Field_0.name@),
        registry[sels[i]->Field_0.name@].executes(
            schema,
            frags,
            sels[i]->Field_0,
            fuel,
            c0,
            cm,
            Ok(v),
        ),
        schema.operates(
            registry,
            label,
            frags,
            sels,
            i + 1,
            acc.insert(response_key(sels[i]->Field_0), v),
            fuel,
            cm,
            c1,
            out,
        ),
    ensures
        schema.operates(registry, label, frags, sels, i, acc, fuel, c0, c1, out),
{
}

/// One step of an operation: the resolution of a fragment's selections, and
/// of the selections after the spread where that one succeeded, make up
/// the resolution from `i` on.
pub proof fn lemma_operates_spread_step(
    schema: Schema,
    registry: Map<Seq<char>, RootField>,
    label: Seq<char>,
    frags: Fragments,
    sels: Seq<Selection>,
    i: int,
    acc: Store,
    fuel: nat,
    c0: Store,
    cm: Store,
    r: Selected,
    c1: Store,
    out: Selected,
)
    requires
        0 <= i < sels.len(),
        sels[i] is FragmentSpread,
        frags.contains_key(sels[i]->FragmentSpread_0.fragment_name@),
        fuel > 0,
        schema.operates(
            registry,
            label,
            frags,
            frags[sels[i]->FragmentSpread_0.fragment_name@].selection_set.items@,
            0,
            acc,
            (fuel - 1) as nat,
            c0,
            cm,
            r,
        ),
        match r {
            Err(e) => c1 == cm && out == Err::<Store, Failure>(e),
            Ok(merged) => schema.operates(
                registry,
                label,
                frags,
                sels,
                i + 1,
                merged,
                fuel,
                cm,
                c1,
                out,
            ),
        },
    ensures
        schema.operates(registry, label, frags, sels, i, acc, fuel, c0, c1, out),
{
    assert(mid(cm, r));
}

impl Schema {
    /// Resolves the selections of an operation against the root fields
    /// `registry`, in the order of the request, into the fields `built` that
    /// were built before.
    fn execute_selections(
        &self,
        registry: &StrMap<RootField>,
        label: &str,
        context: &mut QLContext,
        fragments: &FragmentMap,
        sels: &Vec<Selection>,
        built: StrMap<DataValue>,
        Ghost(fuel): Ghost<nat>,
    ) -> (out: Result<StrMap<DataValue>, Error>)
        requires
            expands_within(fragments@, sels@, fuel),
        ensures
            self.operates(
                registry@,
                label@,
                fragments@,
                sels@,
                0,
                deep(built@),
                fuel,
                deep(old(context)@),
                deep(final(context)@),
                selected(out),
            ),
        decreases fuel, sels@.len(),
    {
        let ghost c_init = deep(context@);
        let ghost a_init = deep(built@);
        let mut result = built;
        let mut i: usize = 0;
        while i < sels.len()
            invariant
                0 <= i <= sels@.len(),
                c_init == deep(old(context)@),
                a_init == deep(built@),
                expands_within(fragments@, sels@, fuel),
                forall|c1: Store, out: Selected| #[trigger]
                    self.operates(
                        registry@,
                        label@,
                        fragments@,
                        sels@,
                        i as int,
                        deep(result@),
                        fuel,
                        deep(context@),
                        c1,
                        out,
                    ) ==> self.operates(
                        registry@,
                        label@,
                        fragments@,
                        sels@,
                        0,
                        a_init,
                        fuel,
                        c_init,
                        c1,
                        out,
                    ),
            decreases sels@.len() - i,
        {
            let ghost cur = deep(context@);
            let ghost acc = deep(result@);
            match &sels[i] {
                Selection::Field(field) => {
                    match registry.get(field.name.as_str()) {
                        Some(root) => {
                            match root.execute_within(
                                self,
                                context,
                                fragments,
                                field,
                                Ghost(fuel),
                            ) {
                                Ok(v) => {
                                    let ghost value = v@;
                                    let key = match &field.alias {
                                        Some(alias) => alias.clone(),
                                        None => field.name.clone(),
                                    };
                                    result.insert(key, v);
                                    proof {
                                        let next = deep(context@);
                                        assert(deep(result@) =~= acc.insert(
                                            response_key(*field),
                                            value,
                                        ));
                                        assert forall|c1: Store, out: Selected| #[trigger]
                                            self.operates(
                                                registry@,
                                                label@,
                                                fragments@,
                                                sels@,
                                                i as int + 1,
                                                deep(result@),
                                                fuel,
                                                next,
                                                c1,
                                                out,
                                            ) implies self.operates(
                                            registry@,
                                            label@,
                                            fragments@,
                                            sels@,
                                            0,
                                            a_init,
                                            fuel,
                                            c_init,
                                            c1,
                                            out,
                                        ) by {
                                            lemma_operates_goes_on(
                                                *self,
                                                registry@,
                                                label@,
                                                fragments@,
                                                sels@,
                                                i as int,
                                                acc,
                                                fuel,
                                                cur,
                                                next,
                                                value,
                                                c1,
                                                out,
                                            );
                                        }
                                    }
                                },
                                Err(e) => {
                                    proof {
                                        lemma_operates_fails(
                                            *self,
                                            registry@,
                                            label@,
                                            fragments@,
                                            sels@,
                                            i as int,
                                            acc,
                                            fuel,
                                            cur,
                                            deep(context@),
                                            e@,
                                        );
                                    }
                                    return Err(e);
                                },
                            }
                        },
                        None => {
                            let text = String::from_str(label).concat(" api ").concat(
                                field.name.as_str(),
                            );
                            let e = Error::NotFoundError(text);
                            proof {
                                assert(self.operates(
                                    registry@,
                                    label@,
                                    fragments@,
                                    sels@,
                                    i as int,
                                    acc,
                                    fuel,
                                    cur,
                                    cur,
                                    Err(e@),
                                ));
                            }
                            return Err(e);
                        },
                    }
                },
                Selection::FragmentSpread(fs) => {
                    match fragments.get(fs.fragment_name.as_str()) {
                        Some(fragment) => {
                            let ghost inner = fragment.selection_set.items@;
                            assert(sels@[i as int] is FragmentSpread);
                            assert(fuel > 0);
                            match self.execute_selections(
                                registry,
                                label,
                                context,
                                fragments,
                                &fragment.selection_set.items,
                                result,
                                Ghost((fuel - 1) as nat),
                            ) {
                                Ok(merged) => {
                                    result = merged;
                                    proof {
                                        let next = deep(context@);
                                        let after = deep(result@);
                                        assert forall|c1: Store, out: Selected| #[trigger]
                                            self.operates(
                                                registry@,
                                                label@,
                                                fragments@,
                                                sels@,
                                                i as int + 1,
                                                after,
                                                fuel,
                                                next,
                                                c1,
                                                out,
                                            ) implies self.operates(
                                            registry@,
                                            label@,
                                            fragments@,
                                            sels@,
                                            0,
                                            a_init,
                                            fuel,
                                            c_init,
                                            c1,
                                            out,
                                        ) by {
                                            lemma_operates_spread_step(
                                                *self,
                                                registry@,
                                                label@,
                                                fragments@,
                                                sels@,
                                                i as int,
                                                acc,
                                                fuel,
                                                cur,
                                                next,
                                                Ok(after),
                                                c1,
                                                out,
                                            );
                                        }
                                    }
                                },
                                Err(e) => {
                                    proof {
                                        lemma_operates_spread_step(
                                            *self,
                                            registry@,
                                            label@,
                                            fragments@,
                                            sels@,
                                            i as int,
                                            acc,
                                            fuel,
                                            cur,
                                            deep(context@),
                                            Err(e@),
                                            deep(context@),
                                            Err(e@),
                                        );
                                    }
                                    return Err(e);
                                },
                            }
                        },
                        None => {
                            let e = Error::NoSuchFragment(fs.fragment_name.clone());
                            proof {
                                assert(self.operates(
                                    registry@,
                                    label@,
                                    fragments@,
                                    sels@,
                                    i as int,
                                    acc,
                                    fuel,
                                    cur,
                                    cur,
                                    Err(e@),
                                ));
                            }
                            return Err(e);
                        },
                    }
                },
                Selection::InlineFragment(_) => {
                    let e = Error::UnSupportedYetError(
                        String::from_str("'InlineFragment' in query(selection sets)"),
                    );
                    proof {
                        assert(self.operates(
                            registry@,
                            label@,
                            fragments@,
                            sels@,
                            i as int,
                            acc,
                            fuel,
                            cur,
                            cur,
                            Err(e@),
                        ));
                    }
                    return Err(e);
                },
            }
            i = i + 1;
        }
        proof {
            assert(self.operates(
                registry@,
                label@,
                fragments@,
                sels@,
                i as int,
                deep(result@),
                fuel,
                deep(context@),
                deep(context@),
                Ok(deep(result@)),
            ));
        }
        Ok(result)
    }

    /// Runs an operation.
    pub(crate) fn execute_within(
        &self,
        context: &mut QLContext,
        fragments: &FragmentMap,
        op: &OperationDefinition,
        Ghost(fuel): Ghost<nat>,
    ) -> (out: Result<DataValue, Error>)
        requires
            expands_within(fragments@, op.items(), fuel),
        ensures
            self.runs(
                fragments@,
                *op,
                fuel,
                deep(old(context)@),
                deep(final(context)@),
                outcome(out),
            ),
    {
        let empty: StrMap<DataValue> = StrMap::new();
        assert(deep(empty@) =~= Map::<Seq<char>, Value>::empty());
        let fields = match op {
            OperationDefinition::Subscription(_) => {
                return Err(
                    Error::UnSupportedYetError(
                        String::from_str("'Subscription' in schema request"),
                    ),
                );
            },
            OperationDefinition::Mutation(m) => match &self.mutations {
                None => {
                    return Err(Error::MutationSchemaNotDefined);
                },
                Some(mutations) => self.execute_selections(
                    mutations,
                    "Mutation",
                    context,
                    fragments,
                    &m.selection_set.items,
                    empty,
                    Ghost(fuel),
                ),
            },
            OperationDefinition::Query(q) => self.execute_selections(
                &self.queries,
                "Query",
                context,
                fragments,
                &q.selection_set.items,
                empty,
                Ghost(fuel),
            ),
            OperationDefinition::SelectionSet(s) => self.execute_selections(
                &self.queries,
                "Query",
                context,
                fragments,
                &s.items,
                empty,
                Ghost(fuel),
            ),
        };
        match fields {
            Ok(map) => {
                proof {
                    lemma_view_object(map);
                }
                Ok(DataValue::Object(map))
            },
            Err(e) => Err(e),
        }
    }

    /// Runs an operation of a document whose fragments are `fragments`, and
    /// gives the object of its fields.
    pub fn execute_operate(
        &self,
        context: &mut QLContext,
        fragments: &FragmentMap,
        op: &OperationDefinition,
    ) -> (out: Result<DataValue, Error>)
        requires
            executor::spreads_end(fragments@, op.items()),
        ensures
            exists|fuel: nat| #[trigger]
                self.runs(
                    fragments@,
                    *op,
                    fuel,
                    deep(old(context)@),
                    deep(final(context)@),
                    outcome(out),
                ),
    {
        let ghost fuel = choose|fuel: nat| expands_within(fragments@, op.items(), fuel);
        self.execute_within(context, fragments, op, Ghost(fuel))
    }

    /// What answering a request may do once the definitions of its document
    /// are sorted into the fragments `frags` and the operations `ops`.
    pub open spec fn answers_grouped(
        self,
        frags: Fragments,
        ops: Seq<OperationDefinition>,
        operation_name: Option<Seq<char>>,
        fuel: nat,
        c0: Store,
        c1: Store,
        out: Outcome,
    ) -> bool {
        match chosen(ops, operation_name) {
            Err(e) => c1 == c0 && out == Err::<Value, Failure>(e),
            Ok(None) => c1 == c0 && out == Ok::<Value, Failure>(Value::Null),
            Ok(Some(k)) => exists|r: Outcome| #[trigger]
                self.runs(frags, ops[k], fuel, c0, c1, r) && out == enveloped(r),
        }
    }

    /// Answers a request whose document is sorted into fragments and
    /// operations.
    pub fn execute_grouped(
        &self,
        context: &mut QLContext,
        grouped: &Grouped,
        operation_name: Option<&str>,
    ) -> (out: Result<DataValue, Error>)
        requires
            grouped.spreads_end(),
        ensures
            exists|fuel: nat| #[trigger]
                self.answers_grouped(
                    grouped.fragments@,
                    grouped.operations@,
                    asked(operation_name),
                    fuel,
                    deep(old(context)@),
                    deep(final(context)@),
                    outcome(out),
                ),
    {
        let ghost fuel = choose|fuel: nat| grouped.expands_within(fuel);
        let ghost c0 = deep(context@);
        let ghost name = asked(operation_name);
        match choose_operation(&grouped.operations, operation_name) {
            Err(e) => {
                proof {
                    assert(self.answers_grouped(
                        grouped.fragments@,
                        grouped.operations@,
                        name,
                        fuel,
                        c0,
                        c0,
                        Err(e@),
                    ));
                }
                Err(e)
            },
            Ok(None) => {
                proof {
                    assert(self.answers_grouped(
                        grouped.fragments@,
                        grouped.operations@,
                        name,
                        fuel,
                        c0,
                        c0,
                        Ok(Value::Null),
                    ));
                }
                Ok(DataValue::Null)
            },
            Ok(Some(k)) => {
                let op = &grouped.operations[k];
                let ran = self.execute_within(context, &grouped.fragments, op, Ghost(fuel));
                let ghost r = outcome(ran);
                let out = match ran {
                    Ok(data) => {
                        let ghost v = data@;
                        let mut envelope: StrMap<DataValue> = StrMap::new();
                        envelope.insert(String::from_str("data"), data);
                        proof {
                            lemma_view_object(envelope);
                            assert(deep(envelope@) =~= Map::<Seq<char>, Value>::empty().insert(
                                "data"@,
                                v,
                            ));
                        }
                        Ok(DataValue::Object(envelope))
                    },
                    Err(e) => Err(e),
                };
                proof {
                    assert(self.runs(
                        grouped.fragments@,
                        grouped.operations@[k as int],
                        fuel,
                        c0,
                        deep(context@),
                        r,
                    ));
                    assert(chosen(grouped.operations@, name)->Ok_0->Some_0 == k as int);
                    assert(self.answers_grouped(
                        grouped.fragments@,
                        grouped.operations@,
                        name,
                        fuel,
                        c0,
                        deep(context@),
                        outcome(out),
                    ));
                }
                out
            },
        }
    }

    /// Answers a request where the fragment spreads of its document come to
    /// an end, and tells by `None` where they do not. The failure of two
    /// operations with one kind and name comes before that test.
    pub fn execute_checked(
        &self,
        context: QLContext,
        doc: Document,
        operation_name: Option<String>,
    ) -> (out: Option<Result<DataValue, Error>>)
        ensures
            out is None <==> !doc.spreads_end() && forall|j: int|
                !ast::first_repeat(doc.operations(), j),
            out matches Some(r) ==> exists|fuel: nat, after: Store| #[trigger]
                self.answers(
                    doc,
                    ast::name_of(operation_name),
                    fuel,
                    deep(context@),
                    after,
                    outcome(r),
                ),
    {
        let mut context = context;
        let ghost c0 = deep(context@);
        let ghost ops = doc.operations();
        match doc.group() {
            Err(e) => {
                proof {
                    assert(self.answers(doc, ast::name_of(operation_name), 0, c0, c0, Err(e@)));
                }
                Some(Err(e))
            },
            Ok(grouped) => {
                proof {
                    assert forall|j: int| !ast::first_repeat(ops, j) by {}
                    assert(grouped.spreads_end() == doc.spreads_end()) by {
                        if grouped.spreads_end() {
                            let fuel = choose|fuel: nat| grouped.expands_within(fuel);
                            assert(doc.expands_within(fuel));
                        }
                        if doc.spreads_end() {
                            let fuel = choose|fuel: nat| doc.expands_within(fuel);
                            assert(grouped.expands_within(fuel));
                        }
                    }
                }
                if !grouped.ends() {
                    return None;
                }
                let name = match &operation_name {
                    Some(s) => Some(s.as_str()),
                    None => None,
                };
                let out = self.execute_grouped(&mut context, &grouped, name);
                proof {
                    let fuel = choose|fuel: nat| #[trigger]
                        self.answers_grouped(
                            grouped.fragments@,
                            grouped.operations@,
                            ast::name_of(operation_name),
                            fuel,
                            c0,
                            deep(context@),
                            outcome(out),
                        );
                    assert(self.answers(
                        doc,
                        ast::name_of(operation_name),
                        fuel,
                        c0,
                        deep(context@),
                        outcome(out),
                    ));
                }
                Some(out)
            },
        }
    }

    /// Answers a request: sorts the definitions of its document, chooses
    /// the operation that `operation_name` asks for, runs it and puts its
    /// result into the envelope of a response.
    pub fn execute_document(
        &self,
        context: QLContext,
        doc: Document,
        operation_name: Option<String>,
    ) -> (out: Result<DataValue, Error>)
        requires
            doc.spreads_end(),
        ensures
            exists|fuel: nat, after: Store| #[trigger]
                self.answers(
                    doc,
                    ast::name_of(operation_name),
                    fuel,
                    deep(context@),
                    after,
                    outcome(out),
                ),
    {
        let mut context = context;
        let ghost c0 = deep(context@);
        let ghost ops = doc.operations();
        match doc.group() {
            Err(e) => {
                proof {
                    assert(self.answers(doc, ast::name_of(operation_name), 0, c0, c0, Err(e@)));
                }
                Err(e)
            },
            Ok(grouped) => {
                proof {
                    assert forall|j: int| !ast::first_repeat(ops, j) by {}
                    let fuel = choose|fuel: nat| doc.expands_within(fuel);
                    assert(grouped.expands_within(fuel));
                }
                let name = match &operation_name {
                    Some(s) => Some(s.as_str()),
                    None => None,
                };
                let out = self.execute_grouped(&mut context, &grouped, name);
                proof {
                    let fuel = choose|fuel: nat| #[trigger]
                        self.answers_grouped(
                            grouped.fragments@,
                            grouped.operations@,
                            ast::name_of(operation_name),
                            fuel,
                            c0,
                            deep(context@),
                            outcome(out),
                        );
                    assert(self.answers(
                        doc,
                        ast::name_of(operation_name),
                        fuel,
                        c0,
                        deep(context@),
                        outcome(out),
                    ));
                }
                out
            },
        }
    }
}

} // verus!
