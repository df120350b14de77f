//! Which names are completed by their representations, and with which values.
use crate::adaptor::may_complete;
use crate::expression::{Literal, LiteralView};
use crate::model::{declared, represented, DeclarationView, ModelView, Representation};
use crate::name::NameView;
use crate::represented::{
    answered, decision_representations, enriched, may_stand_for, sole_representation,
    with_replies,
};
use crate::simplify::optional_literal;
use crate::solution::Solution;
use vstd::prelude::*;

verus! {

/// At `i` stands the first declaration of a name.
pub open spec fn is_first_declaration(
    symbols: Seq<DeclarationView>,
    name: NameView,
    i: int,
) -> bool {
    &&& 0 <= i < symbols.len()
    &&& symbols[i].name == name
    &&& forall|k: int| 0 <= k < i ==> (#[trigger] symbols[k]).name != name
}

/// The first declaration of a name counts, whole, wherever it stands.
pub proof fn law_the_first_declaration_counts(
    symbols: Seq<DeclarationView>,
    name: NameView,
    i: int,
)
    requires
        is_first_declaration(symbols, name, i),
    ensures
        declared(symbols, name) == Some(symbols[i]),
        represented(symbols, name) == symbols[i].representations,
    decreases symbols.len(),
{
    if i > 0 {
        let rest = symbols.drop_first();
        assert(symbols[0].name != name);
        assert forall|k: int| 0 <= k < i - 1 implies (#[trigger] rest[k]).name != name by {
            assert(rest[k] == symbols[k + 1]);
        }
        assert(rest[i - 1] == symbols[i]);
        law_the_first_declaration_counts(rest, name, i - 1);
    }
}

/// A name that is not declared has no declaration and no representations.
pub proof fn law_undeclared_names_have_nothing(symbols: Seq<DeclarationView>, name: NameView)
    requires
        forall|i: int| 0 <= i < symbols.len() ==> (#[trigger] symbols[i]).name != name,
    ensures
        declared(symbols, name) is None,
        represented(symbols, name) is None,
    decreases symbols.len(),
{
    if symbols.len() > 0 {
        let rest = symbols.drop_first();
        assert(symbols[0].name != name);
        assert forall|k: int| 0 <= k < rest.len() implies (#[trigger] rest[k]).name != name by {
            assert(rest[k] == symbols[k + 1]);
        }
        law_undeclared_names_have_nothing(rest, name);
    }
}

/// A name has one representation of one step just where that is all it has.
pub proof fn law_one_representation_of_one_step(
    chains: Option<Seq<Seq<Representation>>>,
    representation: Representation,
)
    ensures
        sole_representation(chains) == Some(representation) <==> chains == Some(
            seq![seq![representation]],
        ),
{
    match chains {
        Some(given) => {
            if given.len() == 1 && given[0].len() == 1 && given[0][0] == representation {
                assert(given[0] =~= seq![representation]);
                assert(given =~= seq![seq![representation]]);
            }
            if given == seq![seq![representation]] {
                assert(given[0] == seq![representation]);
                assert(given[0][0] == representation);
            }
        },
        None => {},
    }
}

/// `places` are the places of the declared names that have one representation of one step, in
/// order: each name at one of them has, and no name elsewhere.
pub open spec fn are_the_places(symbols: Seq<DeclarationView>, places: Seq<int>) -> bool {
    &&& forall|k: int|
        0 <= k < places.len() ==> 0 <= #[trigger] places[k] < symbols.len()
            && sole_representation(represented(symbols, symbols[places[k]].name)) is Some
    &&& forall|j: int, k: int|
        0 <= j < k < places.len() ==> #[trigger] places[j] < #[trigger] places[k]
    &&& forall|i: int|
        0 <= i < symbols.len() && sole_representation(
            represented(symbols, (#[trigger] symbols[i]).name),
        ) is Some ==> places.contains(i)
}

proof fn lemma_places(symbols: Seq<DeclarationView>, count: nat) -> (places: Seq<int>)
    requires
        count <= symbols.len(),
    ensures
        places.len() == decision_representations(symbols, count).len(),
        forall|k: int|
            0 <= k < places.len() ==> 0 <= #[trigger] places[k] < count && Some(
                decision_representations(symbols, count)[k].1,
            ) == sole_representation(represented(symbols, symbols[places[k]].name))
                && decision_representations(symbols, count)[k].0 == symbols[places[k]].name,
        forall|j: int, k: int|
            0 <= j < k < places.len() ==> #[trigger] places[j] < #[trigger] places[k],
        forall|i: int|
            0 <= i < count && sole_representation(
                represented(symbols, (#[trigger] symbols[i]).name),
            ) is Some ==> places.contains(i),
    decreases count,
{
    if count == 0 {
        Seq::empty()
    } else {
        let earlier = lemma_places(symbols, (count - 1) as nat);
        let last = count - 1;
        if sole_representation(represented(symbols, symbols[last].name)) is Some {
            let places = earlier.push(last);
            assert forall|i: int|
                0 <= i < count && sole_representation(
                    represented(symbols, (#[trigger] symbols[i]).name),
                ) is Some implies places.contains(i) by {
                if i < last {
                    let k = choose|k: int| 0 <= k < earlier.len() && earlier[k] == i;
                    assert(places[k] == i);
                } else {
                    assert(places[earlier.len() as int] == last);
                }
            }
            places
        } else {
            earlier
        }
    }
}

/// The names that are completed are the declared names with one representation of one step: all of
/// them, in the order of their declarations, each with that representation.
pub proof fn law_which_names_are_completed(symbols: Seq<DeclarationView>)
    ensures
        exists|places: Seq<int>|
            {
                let listed = decision_representations(symbols, symbols.len());
                &&& #[trigger] are_the_places(symbols, places)
                &&& listed.len() == places.len()
                &&& forall|k: int|
                    0 <= k < places.len() ==> listed[k].0 == symbols[#[trigger] places[k]].name
                        && Some(listed[k].1) == sole_representation(
                        represented(symbols, listed[k].0),
                    )
            },
{
    let places = lemma_places(symbols, symbols.len());
    assert(are_the_places(symbols, places));
}

/// The reply at `i` gives a name its value: it is the last one that has a value for it.
pub open spec fn gives_the_value(
    representations: Seq<(NameView, Representation)>,
    replies: Seq<Option<LiteralView>>,
    name: NameView,
    i: int,
) -> bool {
    &&& 0 <= i < replies.len()
    &&& representations[i].0 == name
    &&& replies[i] is Some
    &&& forall|k: int|
        i < k < replies.len() && representations[k].0 == name ==> (#[trigger] replies[k]) is None
}

/// A name takes the very value that its representation stands for.
pub proof fn law_a_name_takes_the_value_of_its_representation(
    values: Map<NameView, LiteralView>,
    representations: Seq<(NameView, Representation)>,
    replies: Seq<Option<LiteralView>>,
    name: NameView,
    i: int,
)
    requires
        replies.len() <= representations.len(),
        gives_the_value(representations, replies, name, i),
    ensures
        with_replies(values, representations, replies).dom().contains(name),
        with_replies(values, representations, replies)[name] == replies[i].unwrap(),
    decreases replies.len(),
{
    let last = replies.len() - 1;
    if i < last {
        let earlier = replies.drop_last();
        assert(replies[last] == replies.last());
        assert forall|k: int|
            i < k < earlier.len() && representations[k].0 == name implies (
        #[trigger] earlier[k]) is None by {
            assert(earlier[k] == replies[k]);
        }
        assert(earlier[i] == replies[i]);
        law_a_name_takes_the_value_of_its_representation(
            values,
            representations,
            earlier,
            name,
            i,
        );
        assert(replies.last() is Some ==> representations[last].0 != name);
    }
}

/// A name to which no reply gives a value keeps the one that it had, or has none.
pub proof fn law_a_name_without_a_reply_keeps_its_value(
    values: Map<NameView, LiteralView>,
    representations: Seq<(NameView, Representation)>,
    replies: Seq<Option<LiteralView>>,
    name: NameView,
)
    requires
        replies.len() <= representations.len(),
        forall|k: int|
            0 <= k < replies.len() && representations[k].0 == name ==> (
            #[trigger] replies[k]) is None,
    ensures
        with_replies(values, representations, replies).dom().contains(name)
            == values.dom().contains(name),
        values.dom().contains(name) ==> with_replies(values, representations, replies)[name]
            == values[name],
    decreases replies.len(),
{
    if replies.len() > 0 {
        let earlier = replies.drop_last();
        let last = replies.len() - 1;
        assert(replies[last] == replies.last());
        assert forall|k: int|
            0 <= k < earlier.len() && representations[k].0 == name implies (
        #[trigger] earlier[k]) is None by {
            assert(earlier[k] == replies[k]);
        }
        law_a_name_without_a_reply_keeps_its_value(values, representations, earlier, name);
        assert(replies.last() is Some ==> representations[last].0 != name);
    }
}

/// `value_up` was asked of this representation, given this solution, and replied so.
pub open spec fn was_asked<V: Fn(&Representation, &Solution) -> Option<Literal>>(
    value_up: V,
    representation: Representation,
    given: &Solution,
    reply: Option<Literal>,
) -> bool {
    call_ensures(value_up, (&representation, given), reply)
}

/// A reply was given by `value_up`, asked of a representation and given these values.
pub open spec fn is_a_reply<V: Fn(&Representation, &Solution) -> Option<Literal>>(
    value_up: V,
    representation: Representation,
    values: Map<NameView, LiteralView>,
    reply: Option<LiteralView>,
) -> bool {
    exists|given: &Solution, said: Option<Literal>|
        {
            &&& #[trigger] was_asked(value_up, representation, given, said)
            &&& given@ == values
            &&& reply == match said {
                Some(literal) => Some(literal@),
                None => None,
            }
        }
}

/// A solution is completed by asking every representation that is listed once, in order, each
/// given the values that the solution has by then, and by giving each name the value that came
/// back; where there is no model to say what is represented, nothing is asked or added.
pub proof fn law_how_a_solution_is_completed<V>(
    value_up: V,
    template: Option<ModelView>,
    values: Map<NameView, LiteralView>,
    completed: Map<NameView, LiteralView>,
) where V: Fn(&Representation, &Solution) -> Option<Literal>
    requires
        may_complete(value_up, template, values, completed),
    ensures
        template is None ==> completed == values,
        template is Some ==> exists|replies: Seq<Option<LiteralView>>|
            {
                let listed = decision_representations(
                    template.unwrap().symbols,
                    template.unwrap().symbols.len(),
                );
                &&& completed == #[trigger] with_replies(
                    values,
                    decision_representations(
                        template.unwrap().symbols,
                        template.unwrap().symbols.len(),
                    ),
                    replies,
                )
                &&& replies.len() == listed.len()
                &&& forall|i: int|
                    0 <= i < replies.len() ==> is_a_reply(
                        value_up,
                        listed[i].1,
                        with_replies(values, listed, replies.take(i)),
                        #[trigger] replies[i],
                    )
            },
{
    if template is Some {
        let listed = decision_representations(
            template.unwrap().symbols,
            template.unwrap().symbols.len(),
        );
        let replies = choose|replies: Seq<Option<LiteralView>>| #[trigger]
            enriched(value_up, values, listed, replies, completed);
        assert(answered(value_up, values, listed, replies));
        assert forall|i: int| 0 <= i < replies.len() implies is_a_reply(
            value_up,
            listed[i].1,
            with_replies(values, listed, replies.take(i)),
            #[trigger] replies[i],
        ) by {
            let so_far = with_replies(values, listed, replies.take(i));
            assert(may_stand_for(value_up, listed[i].1, so_far, replies[i]));
            let representation = listed[i].1;
            let (given, said) = choose|given: &Solution, said: Option<Literal>|
                given.wf() && given@ == so_far && #[trigger] call_ensures(
                    value_up,
                    (&representation, given),
                    said,
                ) && replies[i] == optional_literal(said);
            assert(was_asked(value_up, representation, given, said));
        }
        assert(completed == with_replies(values, listed, replies));
    }
}

} // verus!
