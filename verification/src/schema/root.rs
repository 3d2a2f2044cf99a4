//! The fields at the root of a schema: its queries and its mutations.
use crate::ast;
use crate::error::{Error, Failure};
use crate::keyed::StrMap;
use crate::schema::executor::{expands_within, spreads_end, FragmentMap, Fragments};
use crate::schema::resolve::{
    arguments_of, outcome, ApiResolveFunc, ArgumentValueMap, Outcome, QLApiParam, QLContext, Store,
};
use crate::schema::types::{ArgumentMap, FieldType};
use crate::schema::Schema;
use crate::value::{deep, DataValue, Value};
use vstd::prelude::*;

verus! {

/// A field at the root: its declared type, the arguments it accepts and its
/// resolver.
pub struct RootField {
    pub field_type: FieldType,
    pub arguments: ArgumentMap,
    pub description: String,
    pub resolve: Box<dyn ApiResolveFunc>,
}

/// The queries of a schema, by name.
pub type QueryMap = StrMap<RootField>;

/// The mutations of a schema, by name.
pub type MutationMap = StrMap<RootField>;

/// A query as the builders name it.
pub type Query = RootField;

/// A mutation as the builders name it.
pub type Mutation = RootField;

/// Whether the resolver of a root field is the one that always fails: every
/// call of it gives the failure of a resolver that was not set, and leaves
/// the context as it was.
pub open spec fn unresolved(f: RootField) -> bool {
    forall|before: Store, arguments: Store, selections: Seq<ast::Selection>, after: Store, out: Outcome| #[trigger]
        f.resolve.resolves(before, arguments, selections, after, out) <==> (after == before && out
            == Err::<Value, Failure>(Failure::DefaultResolveError))
}

impl RootField {
    /// What executing the root field for the request `field` may do: the
    /// resolver is called with the arguments that the request wrote and the
    /// selections below the requested field, and what it returns is coerced
    /// against the declared type.
    pub open spec fn executes(
        self,
        schema: Schema,
        frags: Fragments,
        field: ast::Field,
        fuel: nat,
        c0: Store,
        c1: Store,
        out: Outcome,
    ) -> bool {
        exists|cm: Store, r: Outcome| #[trigger]
            self.resolve.resolves(
                c0,
                arguments_of(field.arguments@),
                field.selection_set.items@,
                cm,
                r,
            ) && match r {
                Err(e) => c1 == cm && out == Err::<Value, Failure>(e),
                Ok(v) => self.field_type.coerces(
                    schema,
                    frags,
                    field.selection_set.items@,
                    v,
                    fuel,
                    cm,
                    c1,
                    out,
                ),
            }
    }

    /// Executes the root field for the request `field`: calls the resolver
    /// with what the request wrote, and coerces what it returns against the
    /// declared type.
    pub fn execute(
        &self,
        schema: &Schema,
        context: &mut QLContext,
        fragments: &FragmentMap,
        field: &ast::Field,
    ) -> (out: Result<DataValue, Error>)
        requires
            spreads_end(fragments@, field.selection_set.items@),
        ensures
            exists|fuel: nat| #[trigger]
                self.executes(
                    *schema,
                    fragments@,
                    *field,
                    fuel,
                    deep(old(context)@),
                    deep(final(context)@),
                    outcome(out),
                ),
    {
        let ghost fuel = choose|fuel: nat|
            expands_within(fragments@, field.selection_set.items@, fuel);
        self.execute_within(schema, context, fragments, field, Ghost(fuel))
    }

    /// Executes the root field, where the fragment spreads below the
    /// requested field are expanded within `fuel`.
    pub(crate) fn execute_within(
        &self,
        schema: &Schema,
        context: &mut QLContext,
        fragments: &FragmentMap,
        field: &ast::Field,
        Ghost(fuel): Ghost<nat>,
    ) -> (out: Result<DataValue, Error>)
        requires
            expands_within(fragments@, field.selection_set.items@, fuel),
        ensures
            self.executes(
                *schema,
                fragments@,
                *field,
                fuel,
                deep(old(context)@),
                deep(final(context)@),
                outcome(out),
            ),
    {
        let ghost c0 = deep(context@);
        let parameter = QLApiParam {
            arguments: ArgumentValueMap::from(&field.arguments),
            selection_sets: &field.selection_set.items,
        };
        match self.resolve.call(context, &parameter) {
            Ok(resolved) => {
                let ghost cm = deep(context@);
                let ghost value = resolved@;
                let out = self.field_type.execute_within(
                    schema,
                    context,
                    fragments,
                    &parameter,
                    resolved,
                    Ghost(fuel),
                );
                proof {
                    assert(self.resolve.resolves(
                        c0,
                        arguments_of(field.arguments@),
                        field.selection_set.items@,
                        cm,
                        Ok(value),
                    ));
                }
                out
            },
            Err(e) => {
                proof {
                    assert(self.resolve.resolves(
                        c0,
                        arguments_of(field.arguments@),
                        field.selection_set.items@,
                        deep(context@),
                        Err(e@),
                    ));
                }
                Err(e)
            },
        }
    }
}

} // verus!
