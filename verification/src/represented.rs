//! The values of variables that the solver knows by their representation only.
use crate::expression::{Literal, LiteralView};
use crate::model::{chain_views, represented, DeclarationView, Model, Representation};
use crate::name::{Name, NameView};
use crate::simplify::optional_literal;
use crate::solution::Solution;
use vstd::prelude::*;

verus! {

/// The representation of a name that has one, made of one step.
pub open spec fn sole_representation(chains: Option<Seq<Seq<Representation>>>) -> Option<
    Representation,
> {
    match chains {
        Some(chains) => if chains.len() == 1 && chains[0].len() == 1 {
            Some(chains[0][0])
        } else {
            None
        },
        None => None,
    }
}

/// Of the first `count` declared names, those with one representation of one step, in their order
/// and with that representation.
pub open spec fn decision_representations(symbols: Seq<DeclarationView>, count: nat) -> Seq<
    (NameView, Representation),
>
    decreases count,
{
    if count == 0 {
        Seq::empty()
    } else {
        let before = decision_representations(symbols, (count - 1) as nat);
        let name = symbols[count - 1].name;
        match sole_representation(represented(symbols, name)) {
            Some(representation) => before.push((name, representation)),
            None => before,
        }
    }
}

/// `value_up` may reply so when it is asked for the value that a representation stands for, given
/// the values of a solution.
pub open spec fn may_stand_for<V: Fn(&Representation, &Solution) -> Option<Literal>>(
    value_up: V,
    representation: Representation,
    values: Map<NameView, LiteralView>,
    reply: Option<LiteralView>,
) -> bool {
    exists|solution: &Solution, r: Option<Literal>|
        solution.wf() && solution@ == values && #[trigger] call_ensures(
            value_up,
            (&representation, solution),
            r,
        ) && reply == optional_literal(r)
}

/// A solution with the values that the replies of the first representations give: each name
/// takes the value that its representation stands for, if there is one.
pub open spec fn with_replies(
    values: Map<NameView, LiteralView>,
    representations: Seq<(NameView, Representation)>,
    replies: Seq<Option<LiteralView>>,
) -> Map<NameView, LiteralView>
    decreases replies.len(),
{
    if replies.len() == 0 {
        values
    } else {
        let before = with_replies(values, representations, replies.drop_last());
        match replies.last() {
            Some(value) => before.insert(representations[replies.len() - 1].0, value),
            None => before,
        }
    }
}

/// The first representations may reply so when they are asked in order, each given what the ones
/// before it have added.
pub open spec fn answered<V: Fn(&Representation, &Solution) -> Option<Literal>>(
    value_up: V,
    before: Map<NameView, LiteralView>,
    representations: Seq<(NameView, Representation)>,
    replies: Seq<Option<LiteralView>>,
) -> bool {
    forall|i: int|
        0 <= i < replies.len() ==> may_stand_for(
            value_up,
            representations[i].1,
            with_replies(before, representations, replies.take(i)),
            #[trigger] replies[i],
        )
}

/// `value_up` can be asked of each representation in turn, given what the ones before it may have
/// added. Nothing else is said of what it can be asked.
pub open spec fn can_enrich<V: Fn(&Representation, &Solution) -> Option<Literal>>(
    value_up: V,
    before: Map<NameView, LiteralView>,
    representations: Seq<(NameView, Representation)>,
) -> bool {
    forall|replies: Seq<Option<LiteralView>>, r: &Representation, s: &Solution|
        {
            &&& #[trigger] answered(value_up, before, representations, replies)
            &&& replies.len() < representations.len()
            &&& *r == representations[replies.len() as int].1
            &&& s.wf()
            &&& s@ == with_replies(before, representations, replies)
        } ==> #[trigger] call_requires(value_up, (r, s))
}

/// The values of a solution after every representation was asked once, in order, each given what
/// the ones before it had added.
pub open spec fn enriched<V: Fn(&Representation, &Solution) -> Option<Literal>>(
    value_up: V,
    before: Map<NameView, LiteralView>,
    representations: Seq<(NameView, Representation)>,
    replies: Seq<Option<LiteralView>>,
    after: Map<NameView, LiteralView>,
) -> bool {
    &&& replies.len() == representations.len()
    &&& after == with_replies(before, representations, replies)
    &&& answered(value_up, before, representations, replies)
}

/// Lists the names of a model that have one representation of one step.
fn list_decision_representations(model: &Model) -> (listed: Vec<(Name, Representation)>)
    ensures
        listed@.len() == decision_representations(
            model@.symbols,
            model@.symbols.len(),
        ).len(),
        forall|i: int|
            0 <= i < listed@.len() ==> ((#[trigger] listed@[i]).0@, listed@[i].1)
                == decision_representations(model@.symbols, model@.symbols.len())[i],
{
    let ghost symbols = model@.symbols;
    let mut listed: Vec<(Name, Representation)> = Vec::new();
    for n in 0..model.symbols.len()
        invariant
            symbols == model@.symbols,
            listed@.len() == decision_representations(symbols, n as nat).len(),
            forall|i: int|
                0 <= i < listed@.len() ==> ((#[trigger] listed@[i]).0@, listed@[i].1)
                    == decision_representations(symbols, n as nat)[i],
    {
        assert(symbols[n as int] == model.symbols@[n as int]@);
        let name = &model.symbols[n].name;
        if let Some(chains) = model.representations_for(name) {
            if chains.len() == 1 && chains[0].len() == 1 {
                assert(chain_views(chains@)[0] == chains@[0]@);
                listed.push((name.clone(), chains[0][0]));
            } else if chains.len() == 1 {
                assert(chain_views(chains@)[0] == chains@[0]@);
            }
        }
    }
    listed
}

/// Gives each name of the model that has one representation of one step the value that the
/// representation stands for. `value_up` is asked for that value, given the values so far; a name
/// for which it has none is left as it is.
pub fn add_represented_decision_values<V>(
    solution: &mut Solution,
    model: &Model,
    value_up: &V,
) where V: Fn(&Representation, &Solution) -> Option<Literal>
    requires
        old(solution).wf(),
        can_enrich(
            *value_up,
            old(solution)@,
            decision_representations(model@.symbols, model@.symbols.len()),
        ),
    ensures
        final(solution).wf(),
        exists|replies: Seq<Option<LiteralView>>| #[trigger]
            enriched(
                *value_up,
                old(solution)@,
                decision_representations(model@.symbols, model@.symbols.len()),
                replies,
                final(solution)@,
            ),
{
    let listed = list_decision_representations(model);
    let ghost before = solution@;
    let ghost representations = decision_representations(model@.symbols, model@.symbols.len());
    let ghost mut replies: Seq<Option<LiteralView>> = Seq::empty();
    for i in 0..listed.len()
        invariant
            solution.wf(),
            can_enrich(*value_up, before, representations),
            listed@.len() == representations.len(),
            forall|k: int|
                0 <= k < listed@.len() ==> ((#[trigger] listed@[k]).0@, listed@[k].1)
                    == representations[k],
            replies.len() == i,
            solution@ == with_replies(before, representations, replies),
            answered(*value_up, before, representations, replies),
    {
        let ghost earlier = replies;
        let ghost given = solution@;
        assert(listed@[i as int].1 == representations[i as int].1);
        let reply = value_up(&listed[i].1, &*solution);
        proof {
            assert(may_stand_for(
                *value_up,
                representations[i as int].1,
                given,
                optional_literal(reply),
            ));
            replies = earlier.push(optional_literal(reply));
            assert(replies.drop_last() =~= earlier);
            assert forall|k: int| 0 <= k < replies.len() implies may_stand_for(
                *value_up,
                representations[k].1,
                with_replies(before, representations, replies.take(k)),
                #[trigger] replies[k],
            ) by {
                if k < i {
                    assert(replies.take(k) =~= earlier.take(k));
                    assert(replies[k] == earlier[k]);
                } else {
                    assert(replies.take(k) =~= earlier);
                }
            }
        }
        if let Some(value) = reply {
            solution.insert(listed[i].0.clone(), value);
        }
    }
    assert(enriched(*value_up, before, representations, replies, solution@));
}

/// A name that has no representation of one step keeps its value, or its lack of one, whatever
/// the representations reply.
pub proof fn law_other_names_keep_their_values(
    values: Map<NameView, LiteralView>,
    representations: Seq<(NameView, Representation)>,
    replies: Seq<Option<LiteralView>>,
    name: NameView,
)
    requires
        replies.len() <= representations.len(),
        forall|i: int| 0 <= i < representations.len() ==> (#[trigger] representations[i]).0 != name,
    ensures
        with_replies(values, representations, replies).dom().contains(name)
            == values.dom().contains(name),
        values.dom().contains(name) ==> with_replies(values, representations, replies)[name]
            == values[name],
    decreases replies.len(),
{
    if replies.len() > 0 {
        law_other_names_keep_their_values(values, representations, replies.drop_last(), name);
        assert(representations[replies.len() - 1].0 != name);
    }
}

} // verus!
