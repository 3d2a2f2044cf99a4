//! How deep the fragment spreads of a request go.
//!
//! A fragment that spreads itself, directly or through others, is never
//! expanded. Where the spreads do come to an end, no fragment stands twice
//! on one chain of spreads, so that as many spreads as the document has
//! fragments are enough to expand them.
use crate::ast::Selection;
use crate::schema::executor::{
    expands_within, lemma_expands_within_more, selections_expand_within, spreads_end,
    FragmentMap, Fragments,
};
use vstd::prelude::*;

verus! {

/// Whether `d` is the least number of spreads inside one another within
/// which the spreads of `sels` are expanded.
pub open spec fn needs(frags: Fragments, sels: Seq<Selection>, d: nat) -> bool {
    expands_within(frags, sels, d) && (d > 0 ==> !expands_within(frags, sels, (d - 1) as nat))
}

/// Selections need one number of spreads only.
pub proof fn lemma_needs_one_number(frags: Fragments, sels: Seq<Selection>, d: nat, e: nat)
    requires
        needs(frags, sels, d),
        needs(frags, sels, e),
    ensures
        d == e,
{
    if d < e {
        lemma_expands_within_more(frags, sels, d, (e - 1) as nat);
    } else if e < d {
        lemma_expands_within_more(frags, sels, e, (d - 1) as nat);
    }
}

/// Selections whose spreads are expanded within some number of spreads need
/// a least such number.
pub proof fn lemma_needs_some_number(frags: Fragments, sels: Seq<Selection>, fuel: nat) -> (d: nat)
    requires
        expands_within(frags, sels, fuel),
    ensures
        d <= fuel,
        needs(frags, sels, d),
    decreases fuel,
{
    if fuel > 0 && expands_within(frags, sels, (fuel - 1) as nat) {
        lemma_needs_some_number(frags, sels, (fuel - 1) as nat)
    } else {
        fuel
    }
}

/// Selections that need `d` spreads, and `d` is not nought, hold a spread of
/// a fragment whose own selections need one spread less.
pub proof fn lemma_needs_a_spread(frags: Fragments, sels: Seq<Selection>, d: nat) -> (name: Seq<
    char,
>)
    requires
        d > 0,
        needs(frags, sels, d),
    ensures
        frags.contains_key(name),
        needs(frags, frags[name].selection_set.items@, (d - 1) as nat),
    decreases sels,
{
    let lower = (d - 1) as nat;
    let i = choose|i: int|
        0 <= i < sels.len() && !match #[trigger] sels[i] {
            Selection::Field(f) => expands_within(frags, f.selection_set.items@, lower),
            Selection::FragmentSpread(fs) => frags.contains_key(fs.fragment_name@) ==> lower > 0
                && expands_within(
                frags,
                frags[fs.fragment_name@].selection_set.items@,
                (lower - 1) as nat,
            ),
            Selection::InlineFragment(_) => true,
        };
    match sels[i] {
        Selection::Field(f) => {
            assert(expands_within(frags, f.selection_set.items@, d));
            lemma_needs_a_spread(frags, f.selection_set.items@, d)
        },
        Selection::FragmentSpread(fs) => {
            assert(expands_within(frags, frags[fs.fragment_name@].selection_set.items@, lower));
            fs.fragment_name@
        },
        Selection::InlineFragment(_) => {
            Seq::empty()
        },
    }
}

/// Selections that need `d` spreads stand at the head of a chain of `d`
/// fragments, one spread inside the other, no two of them the same: the
/// lemma gives their names, each of which needs fewer spreads than `d`.
pub proof fn lemma_needs_a_chain(frags: Fragments, sels: Seq<Selection>, d: nat) -> (chain: Set<
    Seq<char>,
>)
    requires
        needs(frags, sels, d),
    ensures
        chain.finite(),
        chain.len() == d,
        chain.subset_of(frags.dom()),
        forall|name: Seq<char>| #[trigger]
            chain.contains(name) ==> exists|e: nat|
                e < d && needs(frags, frags[name].selection_set.items@, e),
    decreases d,
{
    if d == 0 {
        Set::empty()
    } else {
        let lower = (d - 1) as nat;
        let head = lemma_needs_a_spread(frags, sels, d);
        let body = frags[head].selection_set.items@;
        let rest = lemma_needs_a_chain(frags, body, lower);
        if rest.contains(head) {
            let e = choose|e: nat| e < lower && needs(frags, body, e);
            lemma_needs_one_number(frags, body, e, lower);
        }
        let chain = rest.insert(head);
        assert forall|name: Seq<char>| #[trigger] chain.contains(name) implies exists|e: nat|
            e < d && needs(frags, frags[name].selection_set.items@, e) by {
            if name == head {
                assert(lower < d && needs(frags, frags[name].selection_set.items@, lower));
            } else {
                let e = choose|e: nat|
                    e < lower && needs(frags, frags[name].selection_set.items@, e);
                assert(e < d && needs(frags, frags[name].selection_set.items@, e));
            }
        }
        chain
    }
}

/// Spreads that come to an end are expanded within as many spreads as there
/// are fragments.
pub proof fn lemma_fragments_are_fuel_enough(frags: Fragments, sels: Seq<Selection>)
    requires
        frags.dom().finite(),
        spreads_end(frags, sels),
    ensures
        expands_within(frags, sels, frags.dom().len()),
{
    let fuel = choose|fuel: nat| expands_within(frags, sels, fuel);
    let d = lemma_needs_some_number(frags, sels, fuel);
    let chain = lemma_needs_a_chain(frags, sels, d);
    vstd::set_lib::lemma_len_subset(chain, frags.dom());
    lemma_expands_within_more(frags, sels, d, frags.dom().len());
}

/// Tests whether the fragment spreads in `sels` come to an end.
pub fn selections_end(fragments: &FragmentMap, sels: &Vec<Selection>) -> (b: bool)
    ensures
        b == spreads_end(fragments@, sels@),
{
    proof {
        use_type_invariant(fragments);
        fragments.lemma_keys();
        if spreads_end(fragments@, sels@) {
            lemma_fragments_are_fuel_enough(fragments@, sels@);
        }
    }
    selections_expand_within(fragments, sels, fragments.len())
}

} // verus!
