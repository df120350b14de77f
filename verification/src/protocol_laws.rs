//! What an injection asks of a running search, step by step, and what becomes of the replies.
use crate::error::SolverErrorView;
use crate::injection::{
    advanced, conversed, injected, lemma_first_new, may_inject, may_reply, reply_view,
    BlockerError, InjectionView, RequestView,
};
use crate::injection_laws::{
    constraint_requests, law_each_request_is_made_once, law_injection_only_adds, requests_made,
    variable_requests,
};
use crate::minion_ast::{
    domain_in, Constraint, MinionModel, MinionModelView, NamedVariablesView, VarDomain,
    VarDomainView,
};
use crate::text::debug_quoted;
use vstd::prelude::*;

verus! {

/// The first domain that is listed for a name is its domain, and a name has one only if one is
/// listed.
pub proof fn law_the_first_domain_counts(
    variables: NamedVariablesView,
    name: Seq<char>,
    domain: VarDomainView,
)
    ensures
        variables.domain_of(name) == Some(domain) <==> exists|i: int|
            is_first_domain(variables.domains, name, domain, i),
        variables.domain_of(name) is None <==> forall|i: int|
            0 <= i < variables.domains.len() ==> (#[trigger] variables.domains[i]).0 != name,
{
    lemma_first_domain(variables.domains, name);
    match variables.domain_of(name) {
        Some(found) => {
            let i = choose|i: int| is_first_domain(variables.domains, name, found, i);
            assert(variables.domains[i].0 == name);
            if exists|k: int| is_first_domain(variables.domains, name, domain, k) {
                let k = choose|k: int| is_first_domain(variables.domains, name, domain, k);
                assert(variables.domains[k].0 == name);
                if k < i {
                    assert(variables.domains[k].0 != name);
                }
                if i < k {
                    assert(variables.domains[i].0 != name);
                }
            }
        },
        None => {
            if exists|k: int| is_first_domain(variables.domains, name, domain, k) {
                let k = choose|k: int| is_first_domain(variables.domains, name, domain, k);
                assert(variables.domains[k].0 != name);
            }
        },
    }
}

/// At `i` the first domain of a name is listed, and it is this one.
pub open spec fn is_first_domain(
    domains: Seq<(Seq<char>, VarDomainView)>,
    name: Seq<char>,
    domain: VarDomainView,
    i: int,
) -> bool {
    &&& 0 <= i < domains.len()
    &&& domains[i] == (name, domain)
    &&& forall|k: int| 0 <= k < i ==> (#[trigger] domains[k]).0 != name
}

proof fn lemma_first_domain(domains: Seq<(Seq<char>, VarDomainView)>, name: Seq<char>)
    ensures
        match domain_in(domains, name) {
            Some(found) => exists|i: int| is_first_domain(domains, name, found, i),
            None => forall|i: int|
                0 <= i < domains.len() ==> (#[trigger] domains[i]).0 != name,
        },
    decreases domains.len(),
{
    if domains.len() > 0 {
        let rest = domains.drop_first();
        lemma_first_domain(rest, name);
        match domain_in(domains, name) {
            Some(found) => if domains[0].0 == name {
                assert(is_first_domain(domains, name, found, 0));
            } else {
                let i = choose|i: int| is_first_domain(rest, name, found, i);
                assert forall|k: int| 0 <= k < i + 1 implies (#[trigger] domains[k]).0 != name by {
                    if k > 0 {
                        assert(rest[k - 1] == domains[k]);
                    }
                }
                assert(rest[i] == domains[i + 1]);
                assert(is_first_domain(domains, name, found, i + 1));
            },
            None => {
                assert forall|i: int| 0 <= i < domains.len() implies (
                #[trigger] domains[i]).0 != name by {
                    if i > 0 {
                        assert(rest[i - 1] == domains[i]);
                    }
                }
            },
        }
    }
}

/// A variable that is added comes last in the order of variables, with its domain last among the
/// domains; it comes last in the search if it is to be searched, and not at all if it is not.
pub proof fn law_where_a_variable_is_added(
    variables: NamedVariablesView,
    name: Seq<char>,
    domain: VarDomainView,
)
    ensures
        variables.with_aux_var(name, domain) == (NamedVariablesView {
            domains: variables.domains + seq![(name, domain)],
            variable_order: variables.variable_order + seq![name],
            search_order: variables.search_order,
        }),
        variables.with_var(name, domain) == (NamedVariablesView {
            domains: variables.domains + seq![(name, domain)],
            variable_order: variables.variable_order + seq![name],
            search_order: variables.search_order + seq![name],
        }),
{
    assert(variables.domains.push((name, domain)) =~= variables.domains + seq![(name, domain)]);
    assert(variables.variable_order.push(name) =~= variables.variable_order + seq![name]);
    assert(variables.search_order.push(name) =~= variables.search_order + seq![name]);
}

/// Well-formed variables are listed once, each with its domain, and those that are searched are
/// among them.
pub proof fn law_what_well_formed_variables_are(variables: NamedVariablesView)
    ensures
        variables.wf() <==> {
            &&& variables.variable_order == variables.domains.map_values(
                |entry: (Seq<char>, VarDomainView)| entry.0,
            )
            &&& variables.variable_order.no_duplicates()
            &&& variables.search_order.to_set().subset_of(variables.variable_order.to_set())
        },
{
    let names = variables.domains.map_values(|entry: (Seq<char>, VarDomainView)| entry.0);
    if variables.wf() {
        assert(variables.variable_order =~= names) by {
            assert forall|i: int| 0 <= i < names.len() implies variables.variable_order[i]
                == #[trigger] names[i] by {
                assert(variables.domains[i].0 == variables.variable_order[i]);
            }
        }
        assert forall|n: Seq<char>| #[trigger] variables.search_order.to_set().contains(
            n,
        ) implies variables.variable_order.to_set().contains(n) by {
            let i = choose|i: int|
                0 <= i < variables.search_order.len() && variables.search_order[i] == n;
            assert(variables.variable_order.contains(variables.search_order[i]));
        }
    }
    if variables.variable_order == names && variables.variable_order.no_duplicates()
        && variables.search_order.to_set().subset_of(variables.variable_order.to_set()) {
        assert forall|i: int| 0 <= i < variables.domains.len() implies (
        #[trigger] variables.domains[i]).0 == variables.variable_order[i] by {
            assert(names[i] == variables.domains[i].0);
        }
        assert forall|i: int|
            0 <= i < variables.search_order.len() implies variables.variable_order.contains(
            #[trigger] variables.search_order[i],
        ) by {
            assert(variables.search_order.to_set().contains(variables.search_order[i]));
        }
    }
}

/// An injection begins with what the search knows then, and with nothing done.
pub proof fn law_how_an_injection_begins(model: MinionModelView, blocker: MinionModelView)
    ensures
        InjectionView::start(model, blocker) == (InjectionView {
            existing: model.named_variables.variable_order,
            blocker,
            next_variable: 0,
            next_constraint: 0,
        }),
{
}

/// At `p` stands the next name that is not known.
pub open spec fn is_next_new(state: InjectionView, p: int) -> bool {
    let names = state.blocker.named_variables.variable_order;
    &&& state.next_variable <= p < names.len()
    &&& !state.existing.contains(names[p])
    &&& forall|k: int|
        state.next_variable <= k < p ==> state.existing.contains(#[trigger] names[k])
}

/// While there is a new variable, it is requested, with its domain; it is an error if it would
/// have to be searched, or has no domain.
pub proof fn law_new_variables_are_requested(state: InjectionView, p: int)
    requires
        is_next_new(state, p),
    ensures
        ({
            let variables = state.blocker.named_variables;
            let name = variables.variable_order[p];
            &&& state.position() == p
            &&& state.request() == if variables.search_order.contains(name) {
                Err::<RequestView, SolverErrorView>(
                    SolverErrorView::Runtime(
                        "Dominance constraint introduced unexpected search variable "@
                            + debug_quoted(name) + " during Minion solving"@,
                    ),
                )
            } else {
                match variables.domain_of(name) {
                    Some(domain) => Ok(RequestView::AddVariable(name, domain)),
                    None => Err(
                        SolverErrorView::Runtime(
                            "Missing Minion domain for dominance variable "@ + debug_quoted(name),
                        ),
                    ),
                }
            }
        }),
{
    let names = state.blocker.named_variables.variable_order;
    lemma_first_new(state.existing, names, state.next_variable);
    let q = state.position() as int;
    if q < p {
        assert(state.existing.contains(names[q]));
    }
    if p < q {
        assert(state.existing.contains(names[p]));
    }
}

/// When there is no new variable, the next constraint is requested, and nothing after the last.
pub proof fn law_then_constraints_are_requested(state: InjectionView)
    requires
        state.next_variable <= state.blocker.named_variables.variable_order.len(),
        forall|k: int|
            state.next_variable <= k < state.blocker.named_variables.variable_order.len()
                ==> state.existing.contains(
                #[trigger] state.blocker.named_variables.variable_order[k],
            ),
    ensures
        state.request() == if state.next_constraint < state.blocker.constraints.len() {
            Ok::<RequestView, SolverErrorView>(
                RequestView::AddConstraint(
                    state.blocker.constraints[state.next_constraint as int],
                ),
            )
        } else {
            Ok(RequestView::Nothing)
        },
{
    let names = state.blocker.named_variables.variable_order;
    lemma_first_new(state.existing, names, state.next_variable);
    let q = state.position() as int;
    if q < names.len() {
        assert(state.existing.contains(names[q]));
    }
}

/// What the search takes is added, behind all else, and the injection goes on behind it; what it
/// does not take is not added, the injection stays where it is, and the error tells the reason. A
/// variable that the search took and the model has already is an error too.
pub proof fn law_what_becomes_of_a_reply(
    state: InjectionView,
    model: MinionModelView,
    reply: Result<(), Seq<char>>,
)
    ensures
        match (state.request(), reply) {
            (Ok(RequestView::AddVariable(name, domain)), Ok(())) => {
                if model.named_variables.domain_of(name) is Some {
                    state.replied(model, reply) == (
                        state,
                        model,
                        Err::<(), SolverErrorView>(
                            SolverErrorView::Runtime(
                                "Failed tracking Minion dominance variable "@ + debug_quoted(name),
                            ),
                        ),
                    )
                } else {
                    let (next, grown, outcome) = state.replied(model, reply);
                    &&& outcome == Ok::<(), SolverErrorView>(())
                    &&& next == (InjectionView { next_variable: state.position() + 1, ..state })
                    &&& grown.constraints == model.constraints
                    &&& grown.named_variables == (NamedVariablesView {
                        domains: model.named_variables.domains.push((name, domain)),
                        variable_order: model.named_variables.variable_order.push(name),
                        search_order: model.named_variables.search_order,
                    })
                }
            },
            (Ok(RequestView::AddVariable(name, _)), Err(reason)) => state.replied(model, reply) == (
                state,
                model,
                Err::<(), SolverErrorView>(
                    SolverErrorView::Runtime(
                        "Failed adding Minion dominance variable "@ + debug_quoted(name) + ": "@
                            + reason,
                    ),
                ),
            ),
            (Ok(RequestView::AddConstraint(constraint)), Ok(())) => state.replied(model, reply) == (
                InjectionView { next_constraint: state.next_constraint + 1, ..state },
                MinionModelView {
                    named_variables: model.named_variables,
                    constraints: model.constraints.push(constraint),
                },
                Ok::<(), SolverErrorView>(()),
            ),
            (Ok(RequestView::AddConstraint(_)), Err(reason)) => state.replied(model, reply) == (
                state,
                model,
                Err::<(), SolverErrorView>(
                    SolverErrorView::Runtime(
                        "Failed adding Minion dominance constraint during search: "@ + reason,
                    ),
                ),
            ),
            (Ok(RequestView::Nothing), _) => state.replied(model, reply) == (
                state,
                model,
                Ok::<(), SolverErrorView>(()),
            ),
            (Err(error), _) => state.replied(model, reply) == (
                state,
                model,
                Err::<(), SolverErrorView>(error),
            ),
        },
{
}

/// An injection goes on reply by reply, and stops at the first error.
pub proof fn law_an_injection_goes_reply_by_reply(
    start: InjectionView,
    model: MinionModelView,
    replies: Seq<Result<(), Seq<char>>>,
    reply: Result<(), Seq<char>>,
)
    ensures
        advanced(start, model, Seq::empty()) == (start, model, Ok::<(), SolverErrorView>(())),
        ({
            let (state, so_far, outcome) = advanced(start, model, replies);
            advanced(start, model, replies.push(reply)) == if outcome is Ok {
                state.replied(so_far, reply)
            } else {
                (state, so_far, outcome)
            }
        }),
{
    assert(replies.push(reply).drop_last() =~= replies);
}

/// An injection has ended where there was an error, or where nothing or an error comes next; the
/// model is what it has become by then.
pub proof fn law_when_an_injection_has_ended(
    start: InjectionView,
    model: MinionModelView,
    replies: Seq<Result<(), Seq<char>>>,
    after: MinionModelView,
    outcome: Result<(), SolverErrorView>,
)
    ensures
        injected(start, model, replies, after, outcome) <==> {
            let (state, so_far, reached) = advanced(start, model, replies);
            &&& after == so_far
            &&& reached is Err ==> outcome == reached
            &&& reached is Ok ==> match state.request() {
                Ok(RequestView::Nothing) => outcome == Ok::<(), SolverErrorView>(()),
                Ok(_) => false,
                Err(error) => outcome == Err::<(), SolverErrorView>(error),
            }
        },
{
}

/// The search was asked for this, on `before`; it replied so and left `after`.
pub open spec fn was_asked_of_the_search<A, C, S>(
    add_variable: A,
    add_constraint: C,
    request: RequestView,
    before: S,
    reply: Result<(), Seq<char>>,
    after: S,
) -> bool where
    A: Fn(&str, &VarDomain, S) -> (Result<(), String>, S),
    C: Fn(&Constraint, S) -> (Result<(), String>, S),
 {
    match request {
        RequestView::AddVariable(name, domain) => exists|
            n: &str,
            d: &VarDomain,
            said: Result<(), String>,
        |
            {
                &&& n@ == name
                &&& d@ == domain
                &&& #[trigger] call_ensures(add_variable, (n, d, before), (said, after))
                &&& reply is Ok <==> said is Ok
                &&& reply is Err ==> said is Err && reply->Err_0 == said->Err_0@
            },
        RequestView::AddConstraint(constraint) => exists|c: &Constraint, said: Result<(), String>|
            {
                &&& c@ == constraint
                &&& #[trigger] call_ensures(add_constraint, (c, before), (said, after))
                &&& reply is Ok <==> said is Ok
                &&& reply is Err ==> said is Err && reply->Err_0 == said->Err_0@
            },
        RequestView::Nothing => false,
    }
}

/// Where an injection succeeds, the search was asked for the new variables of the dominance
/// constraint in order, and then for its constraints in order, each once and one after the other;
/// it took them all, and the model holds them behind what it held.
pub proof fn law_a_successful_injection_asks_for_the_blocker<A, C, S>(
    add_variable: A,
    add_constraint: C,
    model: MinionModelView,
    blocker: MinionModel,
    from: S,
    after: MinionModelView,
    to: S,
) where
    A: Fn(&str, &VarDomain, S) -> (Result<(), String>, S),
    C: Fn(&Constraint, S) -> (Result<(), String>, S),

    requires
        may_inject(
            add_variable,
            add_constraint,
            model,
            Ok(blocker),
            from,
            after,
            Ok(()),
            to,
        ),
    ensures
        after.constraints == model.constraints + blocker@.constraints,
        exists|passed: Seq<S>|
            #[trigger] asks_for_all(
                add_variable,
                add_constraint,
                variable_requests(
                    model.named_variables.variable_order,
                    blocker@.named_variables,
                    blocker@.named_variables.variable_order.len(),
                ) + constraint_requests(blocker@.constraints),
                passed,
            ) && passed[0] == from && passed.last() == to,
{
    let start = InjectionView::start(model, blocker@);
    let (replies, passed) = choose|replies: Seq<Result<(), Seq<char>>>, passed: Seq<S>|
        {
            &&& #[trigger] conversed(
                add_variable,
                add_constraint,
                start,
                model,
                replies,
                passed,
            )
            &&& passed[0] == from
            &&& passed.last() == to
            &&& injected(start, model, replies, after, Ok(()))
        };
    law_injection_only_adds(model, blocker@, replies, after, Ok(()));
    law_each_request_is_made_once(
        add_variable,
        add_constraint,
        model,
        blocker@,
        replies,
        passed,
        after,
    );
    let requests = requests_made(start, model, replies);
    lemma_all_taken(start, model, replies);
    assert forall|i: int| 0 <= i < requests.len() implies was_asked_of_the_search(
        add_variable,
        add_constraint,
        #[trigger] requests[i],
        passed[i],
        Ok::<(), Seq<char>>(()),
        passed[i + 1],
    ) by {
        let request = advanced(start, model, replies.take(i)).0.request();
        assert(may_reply(
            add_variable,
            add_constraint,
            request,
            passed[i],
            replies[i],
            passed[i + 1],
        ));
        assert(replies[i] is Ok);
        assert(request is Ok && request->Ok_0 == requests[i]);
        lemma_asked(
            add_variable,
            add_constraint,
            request->Ok_0,
            passed[i],
            replies[i],
            passed[i + 1],
        );
    }
    assert(asks_for_all(add_variable, add_constraint, requests, passed));
}

/// There is a request, and the search was asked for it.
pub open spec fn is_reply_to<A, C, S>(
    add_variable: A,
    add_constraint: C,
    request: Result<RequestView, SolverErrorView>,
    before: S,
    reply: Result<(), Seq<char>>,
    after: S,
) -> bool where
    A: Fn(&str, &VarDomain, S) -> (Result<(), String>, S),
    C: Fn(&Constraint, S) -> (Result<(), String>, S),
 {
    request is Ok && was_asked_of_the_search(
        add_variable,
        add_constraint,
        request->Ok_0,
        before,
        reply,
        after,
    )
}

/// The search gave these replies, one after the other, each to the request that the injection
/// makes by then, and to nothing else.
pub open spec fn are_replies<A, C, S>(
    add_variable: A,
    add_constraint: C,
    start: InjectionView,
    model: MinionModelView,
    replies: Seq<Result<(), Seq<char>>>,
    passed: Seq<S>,
) -> bool where
    A: Fn(&str, &VarDomain, S) -> (Result<(), String>, S),
    C: Fn(&Constraint, S) -> (Result<(), String>, S),
 {
    &&& passed.len() == replies.len() + 1
    &&& forall|i: int|
        0 <= i < replies.len() ==> is_reply_to(
            add_variable,
            add_constraint,
            advanced(start, model, replies.take(i)).0.request(),
            passed[i],
            #[trigger] replies[i],
            passed[i + 1],
        )
}

/// However an injection ends, the search was asked just what the injection requested, once and in
/// order, with what each request left going into the next; the model and the outcome are what
/// the replies come to.
pub proof fn law_what_an_injection_asks<A, C, S>(
    add_variable: A,
    add_constraint: C,
    model: MinionModelView,
    blocker: MinionModel,
    from: S,
    after: MinionModelView,
    outcome: Result<(), SolverErrorView>,
    to: S,
) where
    A: Fn(&str, &VarDomain, S) -> (Result<(), String>, S),
    C: Fn(&Constraint, S) -> (Result<(), String>, S),

    requires
        may_inject(add_variable, add_constraint, model, Ok(blocker), from, after, outcome, to),
    ensures
        exists|replies: Seq<Result<(), Seq<char>>>, passed: Seq<S>|
            {
                &&& #[trigger] are_replies(
                    add_variable,
                    add_constraint,
                    InjectionView::start(model, blocker@),
                    model,
                    replies,
                    passed,
                )
                &&& passed[0] == from
                &&& passed.last() == to
                &&& injected(
                    InjectionView::start(model, blocker@),
                    model,
                    replies,
                    after,
                    outcome,
                )
            },
{
    let start = InjectionView::start(model, blocker@);
    let (replies, passed) = choose|replies: Seq<Result<(), Seq<char>>>, passed: Seq<S>|
        {
            &&& #[trigger] conversed(
                add_variable,
                add_constraint,
                start,
                model,
                replies,
                passed,
            )
            &&& passed[0] == from
            &&& passed.last() == to
            &&& injected(start, model, replies, after, outcome)
        };
    assert forall|i: int| 0 <= i < replies.len() implies is_reply_to(
        add_variable,
        add_constraint,
        advanced(start, model, replies.take(i)).0.request(),
        passed[i],
        #[trigger] replies[i],
        passed[i + 1],
    ) by {
        let request = advanced(start, model, replies.take(i)).0.request();
        assert(may_reply(
            add_variable,
            add_constraint,
            request,
            passed[i],
            replies[i],
            passed[i + 1],
        ));
        assert(request is Ok);
        lemma_asked(
            add_variable,
            add_constraint,
            request->Ok_0,
            passed[i],
            replies[i],
            passed[i + 1],
        );
    }
    assert(are_replies(add_variable, add_constraint, start, model, replies, passed));
}

/// The search was asked for each of these, one after the other, and took them all.
pub open spec fn asks_for_all<A, C, S>(
    add_variable: A,
    add_constraint: C,
    requests: Seq<RequestView>,
    passed: Seq<S>,
) -> bool where
    A: Fn(&str, &VarDomain, S) -> (Result<(), String>, S),
    C: Fn(&Constraint, S) -> (Result<(), String>, S),
 {
    &&& passed.len() == requests.len() + 1
    &&& forall|i: int|
        0 <= i < requests.len() ==> was_asked_of_the_search(
            add_variable,
            add_constraint,
            #[trigger] requests[i],
            passed[i],
            Ok::<(), Seq<char>>(()),
            passed[i + 1],
        )
}

proof fn lemma_asked<A, C, S>(
    add_variable: A,
    add_constraint: C,
    request: RequestView,
    before: S,
    reply: Result<(), Seq<char>>,
    after: S,
) where
    A: Fn(&str, &VarDomain, S) -> (Result<(), String>, S),
    C: Fn(&Constraint, S) -> (Result<(), String>, S),

    requires
        may_reply(add_variable, add_constraint, Ok(request), before, reply, after),
    ensures
        was_asked_of_the_search(add_variable, add_constraint, request, before, reply, after),
{
    match request {
        RequestView::AddVariable(name, domain) => {
            let (n, d, said) = choose|n: &str, d: &VarDomain, said: Result<(), String>|
                {
                    &&& n@ == name
                    &&& d@ == domain
                    &&& #[trigger] call_ensures(add_variable, (n, d, before), (said, after))
                    &&& reply == reply_view(said)
                };
            assert(reply is Ok <==> said is Ok);
        },
        RequestView::AddConstraint(constraint) => {
            let (c, said) = choose|c: &Constraint, said: Result<(), String>|
                {
                    &&& c@ == constraint
                    &&& #[trigger] call_ensures(add_constraint, (c, before), (said, after))
                    &&& reply == reply_view(said)
                };
            assert(reply is Ok <==> said is Ok);
        },
        RequestView::Nothing => {},
    }
}

/// A reply that is an error to a request ends the injection with an error.
proof fn lemma_all_taken(
    start: InjectionView,
    model: MinionModelView,
    replies: Seq<Result<(), Seq<char>>>,
)
    requires
        advanced(start, model, replies).2 is Ok,
    ensures
        forall|i: int|
            0 <= i < replies.len() ==> {
                let request = advanced(start, model, replies.take(i)).0.request();
                request is Ok && !(request->Ok_0 is Nothing) ==> (#[trigger] replies[i]) is Ok
            },
    decreases replies.len(),
{
    if replies.len() > 0 {
        let rest = replies.drop_last();
        let last = replies.len() - 1;
        lemma_all_taken(start, model, rest);
        assert(replies.take(last) =~= rest);
        assert(replies[last] == replies.last());
        assert forall|i: int| 0 <= i < replies.len() implies {
            let request = advanced(start, model, replies.take(i)).0.request();
            request is Ok && !(request->Ok_0 is Nothing) ==> (#[trigger] replies[i]) is Ok
        } by {
            if i < last {
                assert(rest[i] == replies[i]);
                assert(rest.take(i) =~= replies.take(i));
            }
        }
    }
}

/// Where there is no model of the dominance constraint, nothing is asked of the search, nothing is
/// added, and the error tells why.
pub proof fn law_without_a_blocker_nothing_is_asked<A, C, S>(
    add_variable: A,
    add_constraint: C,
    model: MinionModelView,
    lack: BlockerError,
    from: S,
    after: MinionModelView,
    outcome: Result<(), SolverErrorView>,
    to: S,
) where
    A: Fn(&str, &VarDomain, S) -> (Result<(), String>, S),
    C: Fn(&Constraint, S) -> (Result<(), String>, S),

    requires
        may_inject(add_variable, add_constraint, model, Err(lack), from, after, outcome, to),
    ensures
        after == model,
        to == from,
        outcome == Err::<(), SolverErrorView>(
            match lack {
                BlockerError::Rewriting(reason) => SolverErrorView::Runtime(
                    "Failed to rewrite dominance constraint for Minion solving: "@ + reason@,
                ),
                BlockerError::Translation(error) => error@,
            },
        ),
{
}

} // verus!
