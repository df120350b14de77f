//! What holds of an adaptor through any series of loads and searches.
use crate::adaptor::{after_load, after_search, unloaded, MinionView, SearchView};
use crate::error::{MinionError, SolverError};
use crate::minion_ast::{MinionModel, MinionModelView};
use crate::model::ModelView;
use vstd::prelude::*;

verus! {

/// What can be done with an adaptor that changes it.
pub enum Event {
    /// A model is loaded, and brought into the form that Minion takes so.
    Load(ModelView, Result<MinionModel, SolverError>),
    /// A search is run; it ends in this state, and the run so.
    Search(SearchView, Result<(), MinionError>),
}

impl Event {
    /// The model for Minion that this leaves behind, if it did not fail.
    pub open spec fn model(self) -> Option<MinionModelView> {
        match self {
            Event::Load(_, Ok(minion_model)) => Some(minion_model@),
            Event::Search(search, Ok(())) => Some(search.model),
            _ => None,
        }
    }

    /// This is a load that succeeded.
    pub open spec fn is_successful_load(self) -> bool {
        self is Load && self.model() is Some
    }
}

/// An adaptor after one event.
pub open spec fn after_event(minion: MinionView, event: Event) -> MinionView {
    match event {
        Event::Load(model, translated) => after_load(minion, model, translated),
        Event::Search(search, run) => after_search(minion, search, run),
    }
}

/// A new adaptor after some events.
pub open spec fn after_events(events: Seq<Event>) -> MinionView
    decreases events.len(),
{
    if events.len() == 0 {
        unloaded()
    } else {
        after_event(after_events(events.drop_last()), events.last())
    }
}

/// No search is run without a model.
pub open spec fn possible(events: Seq<Event>) -> bool {
    forall|i: int|
        0 <= i < events.len() && (#[trigger] events[i]) is Search ==> after_events(
            events.take(i),
        ).model is Some
}

proof fn lemma_possible(events: Seq<Event>)
    requires
        possible(events),
        events.len() > 0,
    ensures
        possible(events.drop_last()),
        events.last() is Search ==> after_events(events.drop_last()).model is Some,
{
    let earlier = events.drop_last();
    assert forall|i: int| 0 <= i < earlier.len() && (#[trigger] earlier[i]) is Search implies
        after_events(earlier.take(i)).model is Some by {
        assert(earlier[i] == events[i]);
        assert(earlier.take(i) =~= events.take(i));
    }
    assert(events.take(events.len() - 1) =~= earlier);
    assert(events[events.len() - 1] == events.last());
}

/// Through any series of loads and searches, there is a model to search and to write just where
/// some load has succeeded.
pub proof fn law_loaded_just_where_a_load_succeeded(events: Seq<Event>)
    requires
        possible(events),
    ensures
        after_events(events).model is Some <==> exists|i: int|
            0 <= i < events.len() && (#[trigger] events[i]).is_successful_load(),
    decreases events.len(),
{
    if events.len() > 0 {
        let earlier = events.drop_last();
        lemma_possible(events);
        law_loaded_just_where_a_load_succeeded(earlier);
        assert(events[events.len() - 1] == events.last());
        assert forall|i: int| 0 <= i < earlier.len() implies #[trigger] earlier[i]
            == events[i] by {}
        if after_events(earlier).model is Some {
            let i = choose|i: int|
                0 <= i < earlier.len() && (#[trigger] earlier[i]).is_successful_load();
            assert(events[i].is_successful_load());
        }
        if exists|i: int| 0 <= i < events.len() && (#[trigger] events[i]).is_successful_load() {
            let i = choose|i: int|
                0 <= i < events.len() && (#[trigger] events[i]).is_successful_load();
            if i < earlier.len() {
                assert(earlier[i].is_successful_load());
            }
        }
    }
}

/// The model to search and to write is the one that the last load or search left behind that did
/// not fail: after a search it holds what the search has added.
pub proof fn law_model_is_that_of_the_last_success(events: Seq<Event>, last: int)
    requires
        0 <= last < events.len(),
        events[last].model() is Some,
        forall|i: int| last < i < events.len() ==> (#[trigger] events[i]).model() is None,
    ensures
        after_events(events).model == events[last].model(),
    decreases events.len(),
{
    let earlier = events.drop_last();
    if last < earlier.len() {
        assert(events[events.len() - 1] == events.last());
        assert forall|i: int| last < i < earlier.len() implies (
        #[trigger] earlier[i]).model() is None by {
            assert(earlier[i] == events[i]);
        }
        law_model_is_that_of_the_last_success(earlier, last);
    }
}

/// Through any series of loads and searches, an adaptor has a dominance relation just where it has
/// a model that dominance constraints are stated over.
pub proof fn law_dominance_comes_with_its_model(events: Seq<Event>)
    ensures
        after_events(events).dominance_expression is Some <==> after_events(
            events,
        ).dominance_model_template is Some,
    decreases events.len(),
{
    if events.len() > 0 {
        law_dominance_comes_with_its_model(events.drop_last());
    }
}

} // verus!
