//! Injection: a dominance constraint added to a search that is under way.
//!
//! The constraint arrives as a model of its own. Its variables that the search does not know are
//! added first, as variables that are not searched, then its constraints. Each is handed to the
//! search before it is added to the model, and only what the search takes is added.
use crate::error::{
    adding_constraint_error, adding_constraint_failed, adding_variable_error,
    adding_variable_failed, missing_domain, missing_domain_error, rewriting_failed,
    rewriting_failure, tracking_variable_error, tracking_variable_failed,
    unexpected_search_variable, unexpected_search_variable_error, SolverError, SolverErrorView,
};
use crate::minion_ast::{
    contains_name, name_views, Constraint, ConstraintView, MinionModel, MinionModelView,
    VarDomain, VarDomainView,
};
use vstd::prelude::*;

verus! {

/// Why there is no model of a dominance constraint.
#[derive(Debug, PartialEq, Eq)]
pub enum BlockerError {
    /// It could not be rewritten, for this reason.
    Rewriting(String),
    /// What it was rewritten to could not be brought into the form that Minion takes.
    Translation(SolverError),
}

/// What the lack of a model of a dominance constraint is reported as.
pub open spec fn blocker_failed(error: BlockerError) -> SolverErrorView {
    match error {
        BlockerError::Rewriting(reason) => rewriting_failed(reason@),
        BlockerError::Translation(error) => error@,
    }
}

/// What is to be asked of the search next.
#[derive(Debug, PartialEq, Eq)]
pub enum Request {
    /// To add a variable that is not searched.
    AddVariable(String, VarDomain),
    AddConstraint(Constraint),
    /// Nothing: everything is added.
    Nothing,
}

/// What a [`Request`] says.
pub enum RequestView {
    AddVariable(Seq<char>, VarDomainView),
    AddConstraint(ConstraintView),
    Nothing,
}

impl Request {
    pub open spec fn view(&self) -> RequestView {
        match self {
            Request::AddVariable(name, domain) => RequestView::AddVariable(name@, domain@),
            Request::AddConstraint(constraint) => RequestView::AddConstraint(constraint@),
            Request::Nothing => RequestView::Nothing,
        }
    }
}

/// The state of an injection.
pub struct Injection {
    existing: Vec<String>,
    blocker: MinionModel,
    next_variable: usize,
    next_constraint: usize,
}

/// What the state of an [`Injection`] is: the variables that the search knew before, the model of
/// the dominance constraint, and how far its variables and its constraints are done.
pub struct InjectionView {
    pub existing: Seq<Seq<char>>,
    pub blocker: MinionModelView,
    pub next_variable: nat,
    pub next_constraint: nat,
}

/// The first position from `from` on of a name that is not among `existing`; past the last
/// position, if there is none.
pub open spec fn first_new(existing: Seq<Seq<char>>, names: Seq<Seq<char>>, from: nat) -> nat
    decreases names.len() - from,
{
    if from >= names.len() {
        names.len()
    } else if existing.contains(names[from as int]) {
        first_new(existing, names, from + 1)
    } else {
        from
    }
}

impl InjectionView {
    /// An injection that has not begun.
    pub open spec fn start(model: MinionModelView, blocker: MinionModelView) -> Self {
        InjectionView {
            existing: model.named_variables.variable_order,
            blocker,
            next_variable: 0,
            next_constraint: 0,
        }
    }

    /// Which variable of the dominance constraint is to be added next.
    pub open spec fn position(self) -> nat {
        first_new(
            self.existing,
            self.blocker.named_variables.variable_order,
            self.next_variable,
        )
    }

    /// What is to be asked of the search next, or why the injection cannot go on.
    pub open spec fn request(self) -> Result<RequestView, SolverErrorView> {
        let variables = self.blocker.named_variables;
        if self.position() < variables.variable_order.len() {
            let name = variables.variable_order[self.position() as int];
            if variables.search_order.contains(name) {
                Err(unexpected_search_variable(name))
            } else {
                match variables.domain_of(name) {
                    Some(domain) => Ok(RequestView::AddVariable(name, domain)),
                    None => Err(missing_domain(name)),
                }
            }
        } else if self.next_constraint < self.blocker.constraints.len() {
            Ok(
                RequestView::AddConstraint(
                    self.blocker.constraints[self.next_constraint as int],
                ),
            )
        } else {
            Ok(RequestView::Nothing)
        }
    }

    /// The state after the search replied, the model then, and the error that the reply means if
    /// it means one.
    pub open spec fn replied(
        self,
        model: MinionModelView,
        reply: Result<(), Seq<char>>,
    ) -> (Self, MinionModelView, Result<(), SolverErrorView>) {
        match self.request() {
            Ok(RequestView::AddVariable(name, domain)) => match reply {
                Ok(()) => if model.named_variables.domain_of(name) is Some {
                    (self, model, Err(tracking_variable_failed(name)))
                } else {
                    (
                        InjectionView { next_variable: self.position() + 1, ..self },
                        MinionModelView {
                            named_variables: model.named_variables.with_aux_var(name, domain),
                            ..model
                        },
                        Ok(()),
                    )
                },
                Err(reason) => (self, model, Err(adding_variable_failed(name, reason))),
            },
            Ok(RequestView::AddConstraint(constraint)) => match reply {
                Ok(()) => (
                    InjectionView { next_constraint: self.next_constraint + 1, ..self },
                    MinionModelView { constraints: model.constraints.push(constraint), ..model },
                    Ok(()),
                ),
                Err(reason) => (self, model, Err(adding_constraint_failed(reason))),
            },
            Ok(RequestView::Nothing) => (self, model, Ok(())),
            Err(error) => (self, model, Err(error)),
        }
    }
}

/// What the reply of a search says.
pub open spec fn reply_view(reply: Result<(), String>) -> Result<(), Seq<char>> {
    match reply {
        Ok(()) => Ok(()),
        Err(reason) => Err(reason@),
    }
}

/// What an outcome without a value says.
pub open spec fn outcome_view(outcome: Result<(), SolverError>) -> Result<(), SolverErrorView> {
    match outcome {
        Ok(()) => Ok(()),
        Err(error) => Err(error@),
    }
}

impl Injection {
    pub closed spec fn view(&self) -> InjectionView {
        InjectionView {
            existing: name_views(self.existing@),
            blocker: self.blocker@,
            next_variable: self.next_variable as nat,
            next_constraint: self.next_constraint as nat,
        }
    }

    /// Neither of the two positions is past the end.
    pub closed spec fn wf(&self) -> bool {
        &&& self.next_variable <= self.blocker.named_variables.variable_order@.len()
        &&& self.next_constraint <= self.blocker.constraints@.len()
    }

    /// Begins to inject a dominance constraint into a search on `model`, if there is a model of
    /// the constraint.
    pub fn new(model: &MinionModel, blocker: Result<MinionModel, BlockerError>) -> (result: Result<
        Injection,
        SolverError,
    >)
        ensures
            match (blocker, result) {
                (Ok(blocker), Ok(injection)) => injection.wf() && injection@
                    == InjectionView::start(model@, blocker@),
                (Err(reason), Err(error)) => error@ == blocker_failed(reason),
                _ => false,
            },
    {
        match blocker {
            Ok(blocker) => Ok(
                Injection {
                    existing: model.named_variables.get_variable_order(),
                    blocker,
                    next_variable: 0,
                    next_constraint: 0,
                },
            ),
            Err(BlockerError::Rewriting(reason)) => Err(rewriting_failure(reason.as_str())),
            Err(BlockerError::Translation(error)) => Err(error),
        }
    }

    /// Which variable of the dominance constraint is to be added next.
    fn position(&self) -> (position: usize)
        requires
            self.wf(),
        ensures
            position == self@.position(),
            position <= self.blocker.named_variables.variable_order@.len(),
    {
        let names = &self.blocker.named_variables.variable_order;
        let mut i: usize = self.next_variable;
        while i < names.len()
            invariant
                *names == self.blocker.named_variables.variable_order,
                i <= names@.len(),
                self@.position() == first_new(
                    self@.existing,
                    self@.blocker.named_variables.variable_order,
                    i as nat,
                ),
            decreases names@.len() - i,
        {
            assert(self@.blocker.named_variables.variable_order[i as int] == names@[i as int]@);
            if !contains_name(&self.existing, names[i].as_str()) {
                return i;
            }
            i = i + 1;
        }
        i
    }

    /// What is to be asked of the search next, or why the injection cannot go on.
    pub fn request(&self) -> (result: Result<Request, SolverError>)
        requires
            self.wf(),
        ensures
            match result {
                Ok(request) => self@.request() == Ok::<RequestView, SolverErrorView>(request@),
                Err(error) => self@.request() == Err::<RequestView, SolverErrorView>(error@),
            },
    {
        let variables = &self.blocker.named_variables;
        let i = self.position();
        if i < variables.variable_order.len() {
            let name = variables.variable_order[i].as_str();
            assert(self@.blocker.named_variables.variable_order[i as int] == name@);
            if contains_name(&variables.search_order, name) {
                return Err(unexpected_search_variable_error(name));
            }
            match variables.get_vartype(name) {
                Some(domain) => Ok(Request::AddVariable(name.to_owned(), domain)),
                None => Err(missing_domain_error(name)),
            }
        } else if self.next_constraint < self.blocker.constraints.len() {
            Ok(Request::AddConstraint(self.blocker.constraints[self.next_constraint].clone()))
        } else {
            Ok(Request::Nothing)
        }
    }

    /// Takes the reply of the search to what was asked of it, and adds to the model what the
    /// search took.
    pub fn reply(&mut self, model: &mut MinionModel, reply: Result<(), String>) -> (result: Result<
        (),
        SolverError,
    >)
        requires
            old(self).wf(),
        ensures
            final(self).wf(),
            (final(self)@, final(model)@, outcome_view(result)) == old(self)@.replied(
                old(model)@,
                reply_view(reply),
            ),
    {
        match self.request() {
            Ok(Request::AddVariable(name, domain)) => match reply {
                Ok(()) => {
                    let i = self.position();
                    match model.named_variables.add_aux_var(name.clone(), domain) {
                        Some(()) => {
                            assert(i < self.blocker.named_variables.variable_order.len());
                            self.next_variable = i + 1;
                            Ok(())
                        },
                        None => Err(tracking_variable_error(name.as_str())),
                    }
                },
                Err(reason) => Err(adding_variable_error(name.as_str(), reason.as_str())),
            },
            Ok(Request::AddConstraint(constraint)) => match reply {
                Ok(()) => {
                    let ghost constraints = model@.constraints;
                    model.constraints.push(constraint);
                    assert(model@.constraints =~= constraints.push(constraint@));
                    assert(self.next_constraint < self.blocker.constraints.len());
                    self.next_constraint = self.next_constraint + 1;
                    Ok(())
                },
                Err(reason) => Err(adding_constraint_error(reason.as_str())),
            },
            Ok(Request::Nothing) => Ok(()),
            Err(error) => Err(error),
        }
    }
}

/// The state of an injection, and the model, after the search gave these replies; with an error,
/// as soon as one of the replies means one.
pub open spec fn advanced(
    start: InjectionView,
    model: MinionModelView,
    replies: Seq<Result<(), Seq<char>>>,
) -> (InjectionView, MinionModelView, Result<(), SolverErrorView>)
    decreases replies.len(),
{
    if replies.len() == 0 {
        (start, model, Ok(()))
    } else {
        let (state, so_far, outcome) = advanced(start, model, replies.drop_last());
        match outcome {
            Ok(()) => state.replied(so_far, replies.last()),
            Err(_) => (state, so_far, outcome),
        }
    }
}

/// With these replies the injection comes to an end, the model is `after` then, and this is the
/// outcome.
pub open spec fn injected(
    start: InjectionView,
    model: MinionModelView,
    replies: Seq<Result<(), Seq<char>>>,
    after: MinionModelView,
    outcome: Result<(), SolverErrorView>,
) -> bool {
    let (state, so_far, reached) = advanced(start, model, replies);
    &&& after == so_far
    &&& match reached {
        Ok(()) => match state.request() {
            Ok(RequestView::Nothing) => outcome == Ok::<(), SolverErrorView>(()),
            Ok(_) => false,
            Err(error) => outcome == Err::<(), SolverErrorView>(error),
        },
        Err(error) => outcome == Err::<(), SolverErrorView>(error),
    }
}

/// The search may reply so to a request. `before` and `after` are what the request is made on and
/// what it leaves: whatever a request is made on is handed to it, and comes back with the reply.
pub open spec fn may_reply<A, C, S>(
    add_variable: A,
    add_constraint: C,
    request: Result<RequestView, SolverErrorView>,
    before: S,
    reply: Result<(), Seq<char>>,
    after: S,
) -> bool where
    A: Fn(&str, &VarDomain, S) -> (Result<(), String>, S),
    C: Fn(&Constraint, S) -> (Result<(), String>, S),
 {
    match request {
        Ok(RequestView::AddVariable(n, d)) => exists|
            name: &str,
            domain: &VarDomain,
            r: Result<(), String>,
        |
            {
                &&& name@ == n
                &&& domain@ == d
                &&& #[trigger] call_ensures(add_variable, (name, domain, before), (r, after))
                &&& reply == reply_view(r)
            },
        Ok(RequestView::AddConstraint(c)) => exists|constraint: &Constraint, r: Result<(), String>|
            {
                &&& constraint@ == c
                &&& #[trigger] call_ensures(add_constraint, (constraint, before), (r, after))
                &&& reply == reply_view(r)
            },
        _ => false,
    }
}

/// The search was asked what the injection requests, request by request, each just once, and gave
/// these replies. `passed` is what the requests were made on: before the first one, and after each.
pub open spec fn conversed<A, C, S>(
    add_variable: A,
    add_constraint: C,
    start: InjectionView,
    model: MinionModelView,
    replies: Seq<Result<(), Seq<char>>>,
    passed: Seq<S>,
) -> bool where
    A: Fn(&str, &VarDomain, S) -> (Result<(), String>, S),
    C: Fn(&Constraint, S) -> (Result<(), String>, S),
 {
    &&& passed.len() == replies.len() + 1
    &&& forall|i: int|
        0 <= i < replies.len() ==> may_reply(
            add_variable,
            add_constraint,
            advanced(start, model, replies.take(i)).0.request(),
            passed[i],
            #[trigger] replies[i],
            passed[i + 1],
        )
}

/// An injection into a search on a model may leave the model as `after` says and come to this
/// outcome, with requests that are made on `from` first and leave `to` in the end.
pub open spec fn may_inject<A, C, S>(
    add_variable: A,
    add_constraint: C,
    model: MinionModelView,
    blocker: Result<MinionModel, BlockerError>,
    from: S,
    after: MinionModelView,
    outcome: Result<(), SolverErrorView>,
    to: S,
) -> bool where
    A: Fn(&str, &VarDomain, S) -> (Result<(), String>, S),
    C: Fn(&Constraint, S) -> (Result<(), String>, S),
 {
    match blocker {
        Ok(blocker) => exists|replies: Seq<Result<(), Seq<char>>>, passed: Seq<S>|
            {
                &&& #[trigger] conversed(
                    add_variable,
                    add_constraint,
                    InjectionView::start(model, blocker@),
                    model,
                    replies,
                    passed,
                )
                &&& passed[0] == from
                &&& passed.last() == to
                &&& injected(
                    InjectionView::start(model, blocker@),
                    model,
                    replies,
                    after,
                    outcome,
                )
            },
        Err(reason) => after == model && outcome == Err::<(), SolverErrorView>(
            blocker_failed(reason),
        ) && to == from,
    }
}

/// With these replies the injection goes on, and this is what it requests then.
pub open spec fn comes_to(
    start: InjectionView,
    model: MinionModelView,
    replies: Seq<Result<(), Seq<char>>>,
    request: RequestView,
) -> bool {
    let (state, _, reached) = advanced(start, model, replies);
    reached is Ok && state.request() == Ok::<RequestView, SolverErrorView>(request)
}

/// An injection into a search on a model, with requests that are made on `from` first, may come to
/// make this request on `now`.
pub open spec fn may_request<A, C, S>(
    add_variable: A,
    add_constraint: C,
    model: MinionModelView,
    blocker: MinionModelView,
    from: S,
    request: RequestView,
    now: S,
) -> bool where
    A: Fn(&str, &VarDomain, S) -> (Result<(), String>, S),
    C: Fn(&Constraint, S) -> (Result<(), String>, S),
 {
    exists|replies: Seq<Result<(), Seq<char>>>, passed: Seq<S>|
        {
            &&& #[trigger] conversed(
                add_variable,
                add_constraint,
                InjectionView::start(model, blocker),
                model,
                replies,
                passed,
            )
            &&& passed[0] == from
            &&& passed.last() == now
            &&& comes_to(InjectionView::start(model, blocker), model, replies, request)
        }
}

/// The search can be asked whatever an injection may come to request. Nothing else is said of
/// what it can be asked; in particular nothing at all, if there is no model of the dominance
/// constraint.
pub open spec fn can_inject<A, C, S>(
    add_variable: A,
    add_constraint: C,
    model: MinionModelView,
    blocker: Result<MinionModel, BlockerError>,
    from: S,
) -> bool where
    A: Fn(&str, &VarDomain, S) -> (Result<(), String>, S),
    C: Fn(&Constraint, S) -> (Result<(), String>, S),
 {
    match blocker {
        Ok(blocker) => {
            &&& forall|n: &str, d: &VarDomain, now: S|
                may_request(
                    add_variable,
                    add_constraint,
                    model,
                    blocker@,
                    from,
                    RequestView::AddVariable(n@, d@),
                    now,
                ) ==> #[trigger] call_requires(add_variable, (n, d, now))
            &&& forall|c: &Constraint, now: S|
                may_request(
                    add_variable,
                    add_constraint,
                    model,
                    blocker@,
                    from,
                    RequestView::AddConstraint(c@),
                    now,
                ) ==> #[trigger] call_requires(add_constraint, (c, now))
        },
        Err(_) => true,
    }
}

/// Injects a dominance constraint into the search on `model`. `add_variable` and
/// `add_constraint` hand what is added to the search, and are handed nothing else. `outside` is
/// what they work on: it goes into the first of these calls, from there into the next, and is
/// given back after the last, so that every call counts.
pub fn inject<A, C, S>(
    model: &mut MinionModel,
    blocker: Result<MinionModel, BlockerError>,
    add_variable: &A,
    add_constraint: &C,
    outside: S,
) -> (result: (Result<(), SolverError>, S)) where
    A: Fn(&str, &VarDomain, S) -> (Result<(), String>, S),
    C: Fn(&Constraint, S) -> (Result<(), String>, S),

    requires
        can_inject(*add_variable, *add_constraint, old(model)@, blocker, outside),
    ensures
        may_inject(
            *add_variable,
            *add_constraint,
            old(model)@,
            blocker,
            outside,
            final(model)@,
            outcome_view(result.0),
            result.1,
        ),
{
    let mut injection = match Injection::new(model, blocker) {
        Ok(injection) => injection,
        Err(error) => return (Err(error), outside),
    };
    let ghost start = injection@;
    let ghost before = model@;
    let ghost mut replies: Seq<Result<(), Seq<char>>> = Seq::empty();
    let ghost mut passed: Seq<S> = seq![outside];
    let mut now = outside;
    loop
        invariant
            can_inject(*add_variable, *add_constraint, before, blocker, outside),
            blocker is Ok,
            start == InjectionView::start(before, blocker->Ok_0@),
            before == old(model)@,
            injection.wf(),
            conversed(*add_variable, *add_constraint, start, before, replies, passed),
            passed[0] == outside,
            passed.last() == now,
            advanced(start, before, replies) == (
                injection@,
                model@,
                Ok::<(), SolverErrorView>(()),
            ),
        decreases injection.remaining(),
    {
        let request = match injection.request() {
            Ok(request) => request,
            Err(error) => return (Err(error), now),
        };
        assert(request is Nothing || may_request(
            *add_variable,
            *add_constraint,
            before,
            blocker->Ok_0@,
            outside,
            request@,
            now,
        ));
        let ghost made_on = now;
        let (reply, left) = match &request {
            Request::Nothing => return (Ok(()), now),
            Request::AddVariable(name, domain) => add_variable(name.as_str(), domain, now),
            Request::AddConstraint(constraint) => add_constraint(constraint, now),
        };
        let ghost earlier = replies;
        let ghost earlier_passed = passed;
        let ghost said = reply_view(reply);
        let ghost state = injection;
        let ghost given = model@;
        proof {
            assert(may_reply(
                *add_variable,
                *add_constraint,
                injection@.request(),
                made_on,
                said,
                left,
            ));
            replies = earlier.push(said);
            passed = earlier_passed.push(left);
            assert(replies.drop_last() =~= earlier);
            assert forall|i: int| 0 <= i < replies.len() implies may_reply(
                *add_variable,
                *add_constraint,
                advanced(start, before, replies.take(i)).0.request(),
                passed[i],
                #[trigger] replies[i],
                passed[i + 1],
            ) by {
                if i < earlier.len() {
                    assert(replies.take(i) =~= earlier.take(i));
                    assert(replies[i] == earlier[i]);
                } else {
                    assert(replies.take(i) =~= earlier);
                }
            }
            assert(conversed(*add_variable, *add_constraint, start, before, replies, passed));
            assert(advanced(start, before, replies) == state@.replied(given, said));
        }
        now = left;
        let taken = injection.reply(model, reply);
        if let Err(error) = taken {
            assert(injected(start, before, replies, model@, Err(error@)));
            return (Err(error), now);
        }
        proof {
            state.lemma_progress(&injection, given, said);
        }
    }
}

/// What [`first_new`] finds: every name before it is among `existing`, and the name there is not.
pub proof fn lemma_first_new(existing: Seq<Seq<char>>, names: Seq<Seq<char>>, from: nat)
    requires
        from <= names.len(),
    ensures
        from <= first_new(existing, names, from) <= names.len(),
        forall|i: int|
            from <= i < first_new(existing, names, from) ==> existing.contains(#[trigger] names[i]),
        first_new(existing, names, from) < names.len() ==> !existing.contains(
            names[first_new(existing, names, from) as int],
        ),
    decreases names.len() - from,
{
    if from < names.len() && existing.contains(names[from as int]) {
        lemma_first_new(existing, names, from + 1);
    }
}

impl Injection {
    /// How many variables and constraints may still have to be added.
    closed spec fn remaining(&self) -> int {
        (self.blocker.named_variables.variable_order@.len() - self.next_variable) + (
        self.blocker.constraints@.len() - self.next_constraint)
    }

    proof fn lemma_progress(
        &self,
        after: &Injection,
        model: MinionModelView,
        reply: Result<(), Seq<char>>,
    )
        requires
            self.wf(),
            after.wf(),
            self@.request() is Ok,
            !(self@.request()->Ok_0 is Nothing),
            self@.replied(model, reply).0 == after@,
            self@.replied(model, reply).2 is Ok,
        ensures
            0 <= after.remaining() < self.remaining(),
    {
        let names = self@.blocker.named_variables.variable_order;
        lemma_first_new(self@.existing, names, self@.next_variable);
        assert(after@.blocker == self@.blocker);
        assert(names.len() == self.blocker.named_variables.variable_order@.len());
        assert(after@.blocker.named_variables.variable_order.len()
            == after.blocker.named_variables.variable_order@.len());
        assert(self@.blocker.constraints.len() == self.blocker.constraints@.len());
        assert(after@.blocker.constraints.len() == after.blocker.constraints@.len());
    }
}

} // verus!
