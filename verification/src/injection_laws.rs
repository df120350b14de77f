//! What an injection keeps, and what it comes to when the search takes everything.
use crate::error::{unexpected_search_variable, SolverErrorView};
use crate::injection::{
    advanced, comes_to, conversed, first_new, injected, lemma_first_new, may_reply,
    InjectionView, RequestView,
};
use crate::minion_ast::{
    law_adding_a_variable_keeps_the_others, lemma_unlisted, Constraint, ConstraintView,
    MinionModelView, NamedVariablesView, VarDomain, VarDomainView,
};
use vstd::prelude::*;

verus! {

/// `whole` begins with `start`.
pub open spec fn begins_with<T>(whole: Seq<T>, start: Seq<T>) -> bool {
    start.len() <= whole.len() && whole.take(start.len() as int) == start
}

proof fn lemma_growth(
    start: InjectionView,
    model: MinionModelView,
    replies: Seq<Result<(), Seq<char>>>,
)
    requires
        start.next_constraint == 0,
    ensures
        ({
            let (state, after, _) = advanced(start, model, replies);
            &&& state.existing == start.existing
            &&& state.blocker == start.blocker
            &&& state.next_constraint <= start.blocker.constraints.len()
            &&& after.constraints == model.constraints + start.blocker.constraints.take(
                state.next_constraint as int,
            )
            &&& begins_with(
                after.named_variables.variable_order,
                model.named_variables.variable_order,
            )
            &&& begins_with(after.named_variables.domains, model.named_variables.domains)
            &&& after.named_variables.search_order == model.named_variables.search_order
            &&& model.named_variables.wf() ==> after.named_variables.wf()
        }),
    decreases replies.len(),
{
    let (state, after, _) = advanced(start, model, replies);
    if replies.len() == 0 {
        assert(model.constraints + start.blocker.constraints.take(0) =~= model.constraints);
        assert(model.named_variables.variable_order.take(
            model.named_variables.variable_order.len() as int,
        ) =~= model.named_variables.variable_order);
        assert(model.named_variables.domains.take(model.named_variables.domains.len() as int)
            =~= model.named_variables.domains);
    } else {
        lemma_growth(start, model, replies.drop_last());
        let (earlier, so_far, outcome) = advanced(start, model, replies.drop_last());
        if outcome is Ok {
            match earlier.request() {
                Ok(RequestView::AddVariable(name, domain)) => {
                    if after != so_far {
                        assert(after.named_variables.variable_order.take(
                            model.named_variables.variable_order.len() as int,
                        ) =~= so_far.named_variables.variable_order.take(
                            model.named_variables.variable_order.len() as int,
                        ));
                        assert(after.named_variables.domains.take(
                            model.named_variables.domains.len() as int,
                        ) =~= so_far.named_variables.domains.take(
                            model.named_variables.domains.len() as int,
                        ));
                        if model.named_variables.wf() {
                            law_adding_a_variable_keeps_the_others(
                                so_far.named_variables,
                                name,
                                domain,
                                name,
                            );
                        }
                    }
                },
                Ok(RequestView::AddConstraint(constraint)) => {
                    if after != so_far || state != earlier {
                        let n = earlier.next_constraint as int;
                        assert(start.blocker.constraints.take(n + 1)
                            =~= start.blocker.constraints.take(n).push(constraint));
                        assert(after.constraints =~= model.constraints
                            + start.blocker.constraints.take(n + 1));
                    }
                },
                _ => {},
            }
        }
    }
}

/// However an injection ends, the model has all it had before, in the same order: variables and
/// constraints are added behind the others, constraints are the first ones of the dominance
/// constraint, nothing more is searched, and well-formed variables stay so.
pub proof fn law_injection_only_adds(
    model: MinionModelView,
    blocker: MinionModelView,
    replies: Seq<Result<(), Seq<char>>>,
    after: MinionModelView,
    outcome: Result<(), SolverErrorView>,
)
    requires
        injected(InjectionView::start(model, blocker), model, replies, after, outcome),
    ensures
        begins_with(after.named_variables.variable_order, model.named_variables.variable_order),
        begins_with(after.named_variables.domains, model.named_variables.domains),
        after.named_variables.search_order == model.named_variables.search_order,
        exists|count: int|
            0 <= count <= blocker.constraints.len() && after.constraints == model.constraints
                + #[trigger] blocker.constraints.take(count),
        model.named_variables.wf() ==> after.named_variables.wf(),
        outcome is Ok ==> after.constraints == model.constraints + blocker.constraints,
{
    let start = InjectionView::start(model, blocker);
    lemma_growth(start, model, replies);
    let (state, _, _) = advanced(start, model, replies);
    assert(after.constraints == model.constraints + blocker.constraints.take(
        state.next_constraint as int,
    ));
    if outcome is Ok {
        assert(blocker.constraints.take(state.next_constraint as int) =~= blocker.constraints);
    }
}

/// A variable of a dominance constraint that is not among `existing`, is not to be searched, and
/// has this domain.
pub open spec fn is_new_variable(
    existing: Seq<Seq<char>>,
    blocker: NamedVariablesView,
    name: Seq<char>,
    domain: VarDomainView,
) -> bool {
    &&& blocker.variable_order.contains(name)
    &&& !existing.contains(name)
    &&& !blocker.search_order.contains(name)
    &&& blocker.domain_of(name) == Some(domain)
}

/// Nothing but the dominance constraint is requested, whatever the search replies: variables of
/// it that the search does not know, with their domains, and constraints of it, each when those
/// before it are in the model.
pub proof fn law_only_the_blocker_is_requested(
    model: MinionModelView,
    blocker: MinionModelView,
    replies: Seq<Result<(), Seq<char>>>,
    request: RequestView,
)
    requires
        comes_to(InjectionView::start(model, blocker), model, replies, request),
    ensures
        match request {
            RequestView::AddVariable(name, domain) => is_new_variable(
                model.named_variables.variable_order,
                blocker.named_variables,
                name,
                domain,
            ),
            RequestView::AddConstraint(constraint) => exists|i: int|
                {
                    &&& 0 <= i < blocker.constraints.len()
                    &&& constraint == #[trigger] blocker.constraints[i]
                    &&& advanced(
                        InjectionView::start(model, blocker),
                        model,
                        replies,
                    ).1.constraints == model.constraints + blocker.constraints.take(i)
                },
            RequestView::Nothing => true,
        },
{
    let start = InjectionView::start(model, blocker);
    lemma_growth(start, model, replies);
    lemma_passed(start, model, replies);
    let (state, _, _) = advanced(start, model, replies);
    let names = blocker.named_variables.variable_order;
    lemma_first_new(state.existing, names, state.next_variable);
    if request is AddConstraint {
        assert(blocker.constraints[state.next_constraint as int] == request->AddConstraint_0);
    }
}

/// `variables` with those of a dominance constraint, from position `from` on, that are not among
/// `existing`; none of them is searched.
pub open spec fn with_new_variables(
    variables: NamedVariablesView,
    existing: Seq<Seq<char>>,
    blocker: NamedVariablesView,
    from: nat,
) -> NamedVariablesView
    decreases blocker.variable_order.len() - from,
{
    if from >= blocker.variable_order.len() {
        variables
    } else {
        let name = blocker.variable_order[from as int];
        if existing.contains(name) {
            with_new_variables(variables, existing, blocker, from + 1)
        } else {
            with_new_variables(
                variables.with_aux_var(name, blocker.domain_of(name).unwrap()),
                existing,
                blocker,
                from + 1,
            )
        }
    }
}

proof fn lemma_skip_existing(
    variables: NamedVariablesView,
    existing: Seq<Seq<char>>,
    blocker: NamedVariablesView,
    from: nat,
)
    requires
        from <= blocker.variable_order.len(),
    ensures
        with_new_variables(variables, existing, blocker, from) == with_new_variables(
            variables,
            existing,
            blocker,
            first_new(existing, blocker.variable_order, from),
        ),
    decreases blocker.variable_order.len() - from,
{
    if from < blocker.variable_order.len() && existing.contains(
        blocker.variable_order[from as int],
    ) {
        lemma_skip_existing(variables, existing, blocker, from + 1);
    }
}

/// What holds of an injection as long as the search takes everything.
spec fn on_course(
    start: InjectionView,
    model: MinionModelView,
    state: InjectionView,
    so_far: MinionModelView,
) -> bool {
    let variables = start.blocker.named_variables;
    &&& state.existing == start.existing
    &&& state.blocker == start.blocker
    &&& state.next_variable <= variables.variable_order.len()
    &&& so_far.named_variables.wf()
    &&& with_new_variables(model.named_variables, start.existing, variables, 0)
        == with_new_variables(
        so_far.named_variables,
        start.existing,
        variables,
        state.next_variable,
    )
    &&& forall|i: int|
        state.next_variable <= i < variables.variable_order.len() && !start.existing.contains(
            #[trigger] variables.variable_order[i],
        ) ==> so_far.named_variables.domain_of(variables.variable_order[i]) is None
    &&& state.next_constraint > 0 ==> state.position() == variables.variable_order.len()
}

/// The next new variable would have to be searched, and the error is just that.
spec fn halted_by(state: InjectionView, error: SolverErrorView) -> bool {
    let variables = state.blocker.named_variables;
    &&& state.position() < variables.variable_order.len()
    &&& variables.search_order.contains(variables.variable_order[state.position() as int])
    &&& error == unexpected_search_variable(variables.variable_order[state.position() as int])
}

/// As long as the search takes everything, an injection stays on course, and nothing but a new
/// variable that would have to be searched halts it.
proof fn lemma_on_course(
    start: InjectionView,
    model: MinionModelView,
    replies: Seq<Result<(), Seq<char>>>,
)
    requires
        start == InjectionView::start(model, start.blocker),
        model.named_variables.wf(),
        start.blocker.named_variables.wf(),
        forall|i: int| 0 <= i < replies.len() ==> (#[trigger] replies[i]) is Ok,
    ensures
        ({
            let (state, so_far, outcome) = advanced(start, model, replies);
            &&& on_course(start, model, state, so_far)
            &&& outcome is Err ==> halted_by(state, outcome->Err_0)
            &&& state.request() is Err ==> halted_by(state, state.request()->Err_0)
        }),
    decreases replies.len(),
{
    let variables = start.blocker.named_variables;
    let (state, so_far, outcome) = advanced(start, model, replies);
    if replies.len() == 0 {
        assert forall|i: int|
            0 <= i < variables.variable_order.len() && !start.existing.contains(
                #[trigger] variables.variable_order[i],
            ) implies model.named_variables.domain_of(variables.variable_order[i]) is None by {
            lemma_unlisted(model.named_variables, variables.variable_order[i]);
        }
    } else {
        let rest = replies.drop_last();
        assert forall|i: int| 0 <= i < rest.len() implies (#[trigger] rest[i]) is Ok by {
            assert(rest[i] == replies[i]);
        }
        lemma_on_course(start, model, rest);
        let (earlier, before, reached) = advanced(start, model, rest);
        assert(replies[replies.len() - 1] is Ok);
        lemma_first_new(earlier.existing, variables.variable_order, earlier.next_variable);
        match earlier.request() {
            Ok(RequestView::AddVariable(name, domain)) if reached is Ok => {
                let p = earlier.position();
                assert(name == variables.variable_order[p as int]);
                assert(before.named_variables.domain_of(name) is None);
                lemma_skip_existing(
                    before.named_variables,
                    start.existing,
                    variables,
                    earlier.next_variable,
                );
                law_adding_a_variable_keeps_the_others(before.named_variables, name, domain, name);
                assert forall|i: int|
                    state.next_variable <= i < variables.variable_order.len()
                        && !start.existing.contains(
                        #[trigger] variables.variable_order[i],
                    ) implies so_far.named_variables.domain_of(
                    variables.variable_order[i],
                ) is None by {
                    assert(variables.variable_order[p as int] != variables.variable_order[i]);
                    law_adding_a_variable_keeps_the_others(
                        before.named_variables,
                        name,
                        domain,
                        variables.variable_order[i],
                    );
                }
            },
            _ => {},
        }
    }
    lemma_first_new(state.existing, variables.variable_order, state.next_variable);
    if state.position() < variables.variable_order.len() {
        let name = variables.variable_order[state.position() as int];
        lemma_unlisted(variables, name);
    }
}

/// If the search takes all that is asked of it, and the dominance constraint has no variable to
/// be searched that the search does not know, the injection succeeds. The model then has the
/// variables of the dominance constraint that it did not have, with their domains and not to be
/// searched, and all of its constraints.
pub proof fn law_injection_adds_all(
    model: MinionModelView,
    blocker: MinionModelView,
    replies: Seq<Result<(), Seq<char>>>,
    after: MinionModelView,
    outcome: Result<(), SolverErrorView>,
)
    requires
        injected(InjectionView::start(model, blocker), model, replies, after, outcome),
        model.named_variables.wf(),
        blocker.named_variables.wf(),
        forall|i: int|
            0 <= i < blocker.named_variables.search_order.len()
                ==> model.named_variables.variable_order.contains(
                #[trigger] blocker.named_variables.search_order[i],
            ),
        forall|i: int| 0 <= i < replies.len() ==> (#[trigger] replies[i]) is Ok,
    ensures
        outcome is Ok,
        after.constraints == model.constraints + blocker.constraints,
        after.named_variables == with_new_variables(
            model.named_variables,
            model.named_variables.variable_order,
            blocker.named_variables,
            0,
        ),
{
    let start = InjectionView::start(model, blocker);
    lemma_on_course(start, model, replies);
    law_injection_only_adds(model, blocker, replies, after, outcome);
    let (state, so_far, _) = advanced(start, model, replies);
    let variables = blocker.named_variables;
    lemma_first_new(state.existing, variables.variable_order, state.next_variable);
    if outcome is Err {
        let name = variables.variable_order[state.position() as int];
        let i = choose|i: int|
            0 <= i < variables.search_order.len() && variables.search_order[i] == name;
        assert(model.named_variables.variable_order.contains(variables.search_order[i]));
    }
    lemma_skip_existing(
        so_far.named_variables,
        start.existing,
        blocker.named_variables,
        state.next_variable,
    );
}

proof fn lemma_passed(
    start: InjectionView,
    model: MinionModelView,
    replies: Seq<Result<(), Seq<char>>>,
)
    requires
        start.next_variable == 0,
    ensures
        ({
            let (state, _, _) = advanced(start, model, replies);
            let variables = start.blocker.named_variables;
            &&& state.existing == start.existing
            &&& state.blocker == start.blocker
            &&& state.next_variable <= variables.variable_order.len()
            &&& forall|i: int|
                0 <= i < state.next_variable ==> start.existing.contains(
                    #[trigger] variables.variable_order[i],
                ) || !variables.search_order.contains(variables.variable_order[i])
        }),
    decreases replies.len(),
{
    if replies.len() > 0 {
        lemma_passed(start, model, replies.drop_last());
        let (earlier, _, _) = advanced(start, model, replies.drop_last());
        lemma_first_new(
            earlier.existing,
            start.blocker.named_variables.variable_order,
            earlier.next_variable,
        );
    }
}

/// A variable of the dominance constraint that would have to be searched, and that is not among
/// `existing`.
pub open spec fn is_unexpected(
    existing: Seq<Seq<char>>,
    blocker: NamedVariablesView,
    name: Seq<char>,
) -> bool {
    blocker.search_order.contains(name) && !existing.contains(name)
}

/// At `k` stands the first variable of the dominance constraint that [`is_unexpected`].
pub open spec fn is_first_unexpected(
    existing: Seq<Seq<char>>,
    blocker: NamedVariablesView,
    k: int,
) -> bool {
    &&& 0 <= k < blocker.variable_order.len()
    &&& is_unexpected(existing, blocker, blocker.variable_order[k])
    &&& forall|m: int|
        0 <= m < k ==> !is_unexpected(existing, blocker, #[trigger] blocker.variable_order[m])
}

/// An injection does not succeed, and no constraint is added, whatever the search replies, if the
/// dominance constraint has a variable to be searched that the search does not know. If the
/// variables are well formed and the search takes all that is asked of it, the error names the
/// first such variable.
pub proof fn law_unknown_search_variable_fails(
    model: MinionModelView,
    blocker: MinionModelView,
    replies: Seq<Result<(), Seq<char>>>,
    after: MinionModelView,
    outcome: Result<(), SolverErrorView>,
    i: int,
)
    requires
        injected(InjectionView::start(model, blocker), model, replies, after, outcome),
        0 <= i < blocker.named_variables.variable_order.len(),
        blocker.named_variables.search_order.contains(blocker.named_variables.variable_order[i]),
        !model.named_variables.variable_order.contains(blocker.named_variables.variable_order[i]),
    ensures
        outcome is Err,
        after.constraints == model.constraints,
        model.named_variables.wf() && blocker.named_variables.wf() && (forall|j: int|
            0 <= j < replies.len() ==> (#[trigger] replies[j]) is Ok) ==> exists|k: int|
            {
                &&& k <= i
                &&& #[trigger] is_first_unexpected(
                    model.named_variables.variable_order,
                    blocker.named_variables,
                    k,
                )
                &&& outcome == Err::<(), SolverErrorView>(
                    unexpected_search_variable(blocker.named_variables.variable_order[k]),
                )
            },
{
    let start = InjectionView::start(model, blocker);
    let names = blocker.named_variables.variable_order;
    lemma_growth(start, model, replies);
    lemma_passed(start, model, replies);
    lemma_requests(start, model, replies);
    let (state, _, _) = advanced(start, model, replies);
    lemma_first_new(state.existing, names, state.next_variable);
    assert(blocker.constraints.take(0) =~= Seq::empty());
    assert(model.constraints + Seq::empty() =~= model.constraints);
    if model.named_variables.wf() && blocker.named_variables.wf() && (forall|j: int|
        0 <= j < replies.len() ==> (#[trigger] replies[j]) is Ok) {
        lemma_on_course(start, model, replies);
        let k = state.position() as int;
        assert(is_first_unexpected(
            model.named_variables.variable_order,
            blocker.named_variables,
            k,
        ));
    }
}

/// The requests for the variables of a dominance constraint that are not among `existing`, up to
/// position `upto`, in order.
pub open spec fn variable_requests(
    existing: Seq<Seq<char>>,
    blocker: NamedVariablesView,
    upto: nat,
) -> Seq<RequestView>
    decreases upto,
{
    if upto == 0 {
        Seq::empty()
    } else {
        let before = variable_requests(existing, blocker, (upto - 1) as nat);
        let name = blocker.variable_order[upto - 1];
        if existing.contains(name) {
            before
        } else {
            before.push(RequestView::AddVariable(name, blocker.domain_of(name).unwrap()))
        }
    }
}

/// The requests for some constraints, in order.
pub open spec fn constraint_requests(constraints: Seq<ConstraintView>) -> Seq<RequestView> {
    Seq::new(constraints.len(), |i: int| RequestView::AddConstraint(constraints[i]))
}

/// What is requested with these replies, from the first request on.
pub open spec fn requests_made(
    start: InjectionView,
    model: MinionModelView,
    replies: Seq<Result<(), Seq<char>>>,
) -> Seq<RequestView> {
    Seq::new(
        replies.len(),
        |i: int| advanced(start, model, replies.take(i)).0.request()->Ok_0,
    )
}

/// Every reply is one to a request.
pub open spec fn replies_to_requests(
    start: InjectionView,
    model: MinionModelView,
    replies: Seq<Result<(), Seq<char>>>,
) -> bool {
    forall|i: int|
        0 <= i < replies.len() ==> {
            let request = advanced(start, model, #[trigger] replies.take(i)).0.request();
            request is Ok && !(request->Ok_0 is Nothing)
        }
}

proof fn lemma_no_requests(
    existing: Seq<Seq<char>>,
    blocker: NamedVariablesView,
    from: nat,
    upto: nat,
)
    requires
        from <= upto <= blocker.variable_order.len(),
        forall|i: int|
            from <= i < upto ==> existing.contains(#[trigger] blocker.variable_order[i]),
    ensures
        variable_requests(existing, blocker, upto) == variable_requests(existing, blocker, from),
    decreases upto,
{
    if from < upto {
        lemma_no_requests(existing, blocker, from, (upto - 1) as nat);
        assert(existing.contains(blocker.variable_order[upto - 1]));
    }
}

/// How far an injection is tells what was requested; no constraint is, before all variables are.
proof fn lemma_requests(
    start: InjectionView,
    model: MinionModelView,
    replies: Seq<Result<(), Seq<char>>>,
)
    requires
        start.next_variable == 0,
        start.next_constraint == 0,
    ensures
        ({
            let (state, _, outcome) = advanced(start, model, replies);
            let names = start.blocker.named_variables.variable_order;
            &&& state.next_constraint > 0 ==> first_new(
                start.existing,
                names,
                state.next_variable,
            ) == names.len()
            &&& outcome is Ok && replies_to_requests(start, model, replies) ==> requests_made(
                start,
                model,
                replies,
            ) == variable_requests(
                start.existing,
                start.blocker.named_variables,
                state.next_variable,
            ) + constraint_requests(start.blocker.constraints.take(state.next_constraint as int))
        }),
    decreases replies.len(),
{
    let variables = start.blocker.named_variables;
    let names = variables.variable_order;
    let constraints = start.blocker.constraints;
    let (state, _, outcome) = advanced(start, model, replies);
    lemma_growth(start, model, replies);
    lemma_passed(start, model, replies);
    if replies.len() == 0 {
        assert(requests_made(start, model, replies) =~= variable_requests(
            start.existing,
            variables,
            0,
        ) + constraint_requests(constraints.take(0)));
    } else {
        let rest = replies.drop_last();
        let last = replies.len() - 1;
        lemma_requests(start, model, rest);
        lemma_growth(start, model, rest);
        lemma_passed(start, model, rest);
        let (earlier, _, reached) = advanced(start, model, rest);
        lemma_first_new(start.existing, names, earlier.next_variable);
        assert(replies.take(last) =~= rest);
        if outcome is Ok && replies_to_requests(start, model, replies) {
            assert forall|i: int| 0 <= i < rest.len() implies {
                let request = advanced(start, model, #[trigger] rest.take(i)).0.request();
                request is Ok && !(request->Ok_0 is Nothing)
            } by {
                assert(rest.take(i) =~= replies.take(i));
            }
            let request = earlier.request()->Ok_0;
            assert forall|i: int| 0 <= i < rest.len() implies #[trigger] requests_made(
                start,
                model,
                replies,
            )[i] == requests_made(start, model, rest)[i] by {
                assert(rest.take(i) =~= replies.take(i));
            }
            assert(requests_made(start, model, replies) =~= requests_made(
                start,
                model,
                rest,
            ).push(request));
            let old_constraints = constraints.take(earlier.next_constraint as int);
            match request {
                RequestView::AddVariable(name, domain) => {
                    let p = earlier.position();
                    lemma_no_requests(start.existing, variables, earlier.next_variable, p);
                    assert(constraint_requests(old_constraints) =~= Seq::empty());
                    assert(variable_requests(start.existing, variables, p + 1)
                        == variable_requests(start.existing, variables, p).push(request));
                    assert(requests_made(start, model, replies) =~= variable_requests(
                        start.existing,
                        variables,
                        p + 1,
                    ) + constraint_requests(old_constraints));
                },
                RequestView::AddConstraint(constraint) => {
                    assert(constraints.take(earlier.next_constraint as int + 1)
                        =~= old_constraints.push(constraint));
                    assert(constraint_requests(old_constraints.push(constraint))
                        =~= constraint_requests(old_constraints).push(request));
                    assert(requests_made(start, model, replies) =~= variable_requests(
                        start.existing,
                        variables,
                        earlier.next_variable,
                    ) + constraint_requests(old_constraints.push(constraint)));
                },
                RequestView::Nothing => {},
            }
        }
    }
}

/// Where an injection succeeds, its requests are those for the variables of the dominance
/// constraint that the search does not know, in order and with their domains, and then those for
/// its constraints, in order: each is made just once, and no other is made.
pub proof fn law_each_request_is_made_once<A, C, S>(
    add_variable: A,
    add_constraint: C,
    model: MinionModelView,
    blocker: MinionModelView,
    replies: Seq<Result<(), Seq<char>>>,
    passed: Seq<S>,
    after: MinionModelView,
) where
    A: Fn(&str, &VarDomain, S) -> (Result<(), String>, S),
    C: Fn(&Constraint, S) -> (Result<(), String>, S),

    requires
        conversed(
            add_variable,
            add_constraint,
            InjectionView::start(model, blocker),
            model,
            replies,
            passed,
        ),
        injected(InjectionView::start(model, blocker), model, replies, after, Ok(())),
    ensures
        requests_made(InjectionView::start(model, blocker), model, replies) == variable_requests(
            model.named_variables.variable_order,
            blocker.named_variables,
            blocker.named_variables.variable_order.len(),
        ) + constraint_requests(blocker.constraints),
{
    let start = InjectionView::start(model, blocker);
    let names = blocker.named_variables.variable_order;
    assert forall|i: int| 0 <= i < replies.len() implies {
        let request = advanced(start, model, #[trigger] replies.take(i)).0.request();
        request is Ok && !(request->Ok_0 is Nothing)
    } by {
        assert(may_reply(
            add_variable,
            add_constraint,
            advanced(start, model, replies.take(i)).0.request(),
            passed[i],
            replies[i],
            passed[i + 1],
        ));
    }
    lemma_growth(start, model, replies);
    lemma_passed(start, model, replies);
    lemma_requests(start, model, replies);
    let (state, _, _) = advanced(start, model, replies);
    lemma_first_new(start.existing, names, state.next_variable);
    lemma_no_requests(
        start.existing,
        blocker.named_variables,
        state.next_variable,
        names.len(),
    );
    assert(blocker.constraints.take(state.next_constraint as int) =~= blocker.constraints);
}

} // verus!
