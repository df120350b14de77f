use minion_adaptor::adaptor::{
    get_solver_stats, translate_solution, Minion, Search, SearchComplete, SearchIncomplete,
    SearchStatus, SolveSuccess, SolverFamily, SolverStats, Tools,
};
use minion_adaptor::error::{MinionError, SolverError};
use minion_adaptor::expression::{Atom, Expression, GroundDomain, Literal, Reference};
use minion_adaptor::minion_ast::{Constant, Constraint, MinionModel, Var, VarDomain};
use minion_adaptor::model::{Declaration, Model, Representation};
use minion_adaptor::name::Name;
use minion_adaptor::solution::Solution;
use std::cell::RefCell;

fn truth(value: bool) -> Expression {
    Expression::literal(Literal::Bool(value))
}

/// The truth value of an expression without references.
fn eval_constant(x: &Expression) -> Option<Literal> {
    let value = |x: &Expression| match eval_constant(x) {
        Some(Literal::Bool(b)) => Some(b),
        _ => None,
    };
    match x {
        Expression::Atomic(Atom::Literal(literal)) => Some(literal.clone()),
        Expression::Not(x) => value(x).map(|b| Literal::Bool(!b)),
        Expression::Imply(x, y) => match (value(x), value(y)) {
            (Some(x), Some(y)) => Some(Literal::Bool(!x || y)),
            _ => None,
        },
        _ => None,
    }
}

/// An implication from false is true, and one from true is what it implies.
fn run_partial_evaluator(x: &Expression) -> Option<Expression> {
    match x {
        Expression::Imply(x, _) if **x == truth(false) => Some(truth(true)),
        Expression::Imply(x, y) if **x == truth(true) => Some((**y).clone()),
        _ => None,
    }
}

fn user_name(name: &Name) -> Result<&'static str, SolverError> {
    match name {
        Name::User(text) => Ok(text),
        _ => Err(SolverError::Other("not a user name".to_owned())),
    }
}

/// A constraint that holds where the truth value of an expression is `wanted`.
fn constraint(x: &Expression, wanted: bool) -> Result<Constraint, SolverError> {
    let all = |terms: &Expression| match terms.unwrap_matrix_unchecked() {
        Some((items, _)) => items.iter().map(|x| constraint(x, wanted)).collect(),
        None => Err(SolverError::Other("not a matrix".to_owned())),
    };
    match (x, wanted) {
        (Expression::Atomic(Atom::Literal(Literal::Bool(b))), _) => {
            Ok(if *b == wanted { Constraint::True } else { Constraint::False })
        }
        (Expression::Atomic(Atom::Reference(reference)), _) => Ok(Constraint::WLiteral(
            Var::NameRef(user_name(&reference.name)?.to_owned()),
            Constant::Integer(wanted as i32),
        )),
        (Expression::Not(x), _) => constraint(x, !wanted),
        (Expression::And(terms), true) | (Expression::Or(terms), false) => {
            Ok(Constraint::WatchedAnd(all(terms)?))
        }
        (Expression::Or(terms), true) | (Expression::And(terms), false) => {
            Ok(Constraint::WatchedOr(all(terms)?))
        }
        (Expression::Imply(x, y), true) => {
            Ok(Constraint::WatchedOr(vec![constraint(x, false)?, constraint(y, true)?]))
        }
        (Expression::Imply(x, y), false) => {
            Ok(Constraint::WatchedAnd(vec![constraint(x, true)?, constraint(y, false)?]))
        }
        _ => Err(SolverError::Other("no constraint".to_owned())),
    }
}

fn model_to_minion(model: Model) -> Result<MinionModel, SolverError> {
    let mut minion_model = MinionModel::new();
    for declaration in &model.symbols {
        minion_model
            .named_variables
            .add_var(user_name(&declaration.name)?.to_owned(), VarDomain::Bool);
    }
    for x in &model.constraints {
        minion_model.constraints.push(constraint(x, true)?);
    }
    Ok(minion_model)
}

/// Whether a constraint holds of the values of some variables.
fn holds(constraint: &Constraint, values: &Vec<(String, Constant)>) -> bool {
    match constraint {
        Constraint::True => true,
        Constraint::False => false,
        Constraint::WLiteral(Var::NameRef(name), value) => {
            values.iter().any(|(other, is)| other == name && is == value)
        }
        Constraint::WatchedAnd(items) => items.iter().all(|x| holds(x, values)),
        Constraint::WatchedOr(items) => items.iter().any(|x| holds(x, values)),
        _ => panic!("no such constraint in a search over bools"),
    }
}

/// Searches all values of the bools of a model, and shows those of which the constraints hold,
/// those included that are added while it runs.
fn run(
    model: &MinionModel,
    constraints: &RefCell<Vec<Constraint>>,
    show: &mut dyn FnMut(&Vec<(String, Constant)>) -> bool,
) {
    let names = model.named_variables.get_search_variable_order();
    for bits in 0..(1 << names.len()) {
        let values: Vec<(String, Constant)> = names
            .iter()
            .enumerate()
            .map(|(i, name)| {
                (name.clone(), Constant::Integer((bits >> (names.len() - 1 - i)) & 1))
            })
            .collect();
        if constraints.borrow().iter().all(|x| holds(x, &values)) && !show(&values) {
            return;
        }
    }
}

/// Solves the loaded model, and hands every solution to `callback`.
fn solve(
    minion: &mut Minion,
    callback: &dyn Fn(&Solution) -> bool,
    rewrite_model: &dyn Fn(Model, &Vec<&'static str>) -> Result<Model, String>,
) -> Result<SolveSuccess, SolverError> {
    let mut search = minion.start_search();
    let initial = search.model().clone();
    let constraints = RefCell::new(initial.constraints.clone());
    let tools = Tools {
        eval_constant,
        run_partial_evaluator,
        value_up: |_: &Representation, _: &Solution| -> Option<Literal> { None },
        rewrite_model: |model: Model, rule_sets: &Vec<&'static str>| {
            rewrite_model(model, rule_sets)
        },
        model_to_minion,
        add_variable: |_: &str, _: &VarDomain, _: ()| (Ok(()), ()),
        add_constraint: |x: &Constraint, _: ()| {
            constraints.borrow_mut().push(x.clone());
            (Ok(()), ())
        },
    };
    let asked = |solution: &Solution, _: ()| (callback(solution), ());
    run(&initial, &constraints, &mut |values| {
        search.take_solution(minion, values, &asked, &tools, ()).0
    });
    minion.finish_search(search, Ok(()), &Some("7".to_owned()))
}

fn unchanged(model: Model, _: &Vec<&'static str>) -> Result<Model, String> {
    Ok(model)
}

fn bools(names: Vec<&'static str>) -> Model {
    let mut model = Model::new(vec!["Base"]);
    for name in names {
        model.add_symbol(Declaration::new_find(Name::User(name), GroundDomain::Bool));
    }
    model
}

fn atom(name: &'static str) -> Atom {
    Atom::Reference(Reference::new(Name::User(name), Some(GroundDomain::Bool)))
}

fn and(items: Vec<Expression>) -> Expression {
    Expression::And(Box::new(Expression::list(items)))
}

fn or(items: Vec<Expression>) -> Expression {
    Expression::Or(Box::new(Expression::list(items)))
}

fn not(x: Expression) -> Expression {
    Expression::Not(Box::new(x))
}

fn imply(x: Expression, y: Expression) -> Expression {
    Expression::Imply(Box::new(x), Box::new(y))
}

/// The relation by which a solution dominates those that are true of more.
fn pareto(x: &'static str, y: &'static str) -> Expression {
    Expression::DominanceRelation(Box::new(and(vec![
        imply(Expression::Atomic(atom(x)), Expression::FromSolution(atom(x))),
        imply(Expression::Atomic(atom(y)), Expression::FromSolution(atom(y))),
        or(vec![
            and(vec![not(Expression::Atomic(atom(x))), Expression::FromSolution(atom(x))]),
            and(vec![not(Expression::Atomic(atom(y))), Expression::FromSolution(atom(y))]),
        ]),
    ])))
}

#[test]
fn minion_dominance_programming_keeps_only_non_dominated_solution() {
    let x = Name::User("x");
    let y = Name::User("y");

    let x_decl = Declaration::new_find(x.clone(), GroundDomain::Bool);
    let y_decl = Declaration::new_find(y.clone(), GroundDomain::Bool);
    let x_ref = Expression::Atomic(Atom::Reference(Reference::new(x.clone(), x_decl.domain)));
    let y_ref = Expression::Atomic(Atom::Reference(Reference::new(y.clone(), y_decl.domain)));
    let from_solution = |name: &Name| {
        Expression::FromSolution(Atom::Reference(Reference::new(
            name.clone(),
            Some(GroundDomain::Bool),
        )))
    };

    let mut model = Model::new(vec![]);
    model.add_symbol(x_decl);
    model.add_symbol(y_decl);
    model.dominance = Some(Expression::DominanceRelation(Box::new(and(vec![
        imply(x_ref.clone(), from_solution(&x)),
        imply(y_ref.clone(), from_solution(&y)),
        or(vec![
            and(vec![not(x_ref.clone()), from_solution(&x)]),
            and(vec![not(y_ref.clone()), from_solution(&y)]),
        ]),
    ]))));

    let mut minion = Minion::new();
    minion.load_model(model, &model_to_minion).expect("Minion model should load");

    let solutions = RefCell::new(Vec::<Solution>::new());
    solve(
        &mut minion,
        &|solution: &Solution| {
            solutions.borrow_mut().push(solution.clone());
            true
        },
        &unchanged,
    )
    .expect("Minion solve should succeed");

    let solutions = solutions.borrow();
    assert_eq!(solutions.len(), 1);
    let solution = &solutions[0];
    assert_eq!(solution.get(&x), Some(&Literal::Int(0)));
    assert_eq!(solution.get(&y), Some(&Literal::Int(0)));
}

#[test]
fn solutions_that_do_not_dominate_each_other_are_kept() {
    let mut model = bools(vec!["x", "y"]);
    model.add_constraint(or(vec![Expression::Atomic(atom("x")), Expression::Atomic(atom("y"))]));
    model.dominance = Some(pareto("x", "y"));
    let mut minion = Minion::new();
    assert_eq!(minion.load_model(model, &model_to_minion), Ok(()));
    let seen = RefCell::new(Vec::new());
    let result = solve(
        &mut minion,
        &|solution: &Solution| {
            seen.borrow_mut().push((
                solution.get(&Name::User("x")).cloned(),
                solution.get(&Name::User("y")).cloned(),
            ));
            true
        },
        &unchanged,
    );
    assert_eq!(
        result,
        Ok(SolveSuccess {
            stats: SolverStats { nodes: Some(7) },
            status: SearchStatus::Complete(SearchComplete::HasSolutions),
        })
    );
    assert_eq!(
        *seen.borrow(),
        vec![
            (Some(Literal::Int(0)), Some(Literal::Int(1))),
            (Some(Literal::Int(1)), Some(Literal::Int(0))),
        ]
    );
    // The model of the adaptor is the one that the search ended with: the constraint of the
    // model, and one for each solution.
    assert_eq!(minion.solver_input().constraints.len(), 3);
}

#[test]
fn without_dominance_every_solution_is_shown() {
    let mut minion = Minion::new();
    assert_eq!(minion.load_model(bools(vec!["x", "y"]), &model_to_minion), Ok(()));
    let count = RefCell::new(0);
    let result = solve(
        &mut minion,
        &|_: &Solution| {
            *count.borrow_mut() += 1;
            true
        },
        &|_: Model, _: &Vec<&'static str>| panic!("nothing is to be rewritten"),
    );
    assert_eq!(*count.borrow(), 4);
    assert_eq!(
        result.map(|success| success.status),
        Ok(SearchStatus::Complete(SearchComplete::HasSolutions))
    );
    assert!(minion.solver_input().constraints.is_empty());
}

#[test]
fn a_search_may_have_no_solutions() {
    let mut model = bools(vec!["x"]);
    model.add_constraint(truth(false));
    let mut minion = Minion::default();
    assert_eq!(minion.load_model(model, &model_to_minion), Ok(()));
    let result = solve(&mut minion, &|_: &Solution| panic!("no solution"), &unchanged);
    assert_eq!(
        result.map(|success| success.status),
        Ok(SearchStatus::Complete(SearchComplete::NoSolutions))
    );
}

#[test]
fn the_user_can_stop_a_search() {
    let mut model = bools(vec!["x", "y"]);
    model.dominance = Some(pareto("x", "y"));
    let mut minion = Minion::new();
    assert_eq!(minion.load_model(model, &model_to_minion), Ok(()));
    let result = solve(
        &mut minion,
        &|_: &Solution| false,
        &|_: Model, _: &Vec<&'static str>| panic!("nothing is to be rewritten"),
    );
    assert_eq!(
        result.map(|success| success.status),
        Ok(SearchStatus::Incomplete(SearchIncomplete::UserTerminated))
    );
    assert!(minion.solver_input().constraints.is_empty());
}

#[test]
fn a_blocker_that_fails_ends_the_search_with_its_error() {
    let mut model = bools(vec!["x", "y"]);
    model.dominance = Some(pareto("x", "y"));
    let mut minion = Minion::new();
    assert_eq!(minion.load_model(model, &model_to_minion), Ok(()));
    let count = RefCell::new(0);
    let result = solve(
        &mut minion,
        &|_: &Solution| {
            *count.borrow_mut() += 1;
            true
        },
        &|_: Model, _: &Vec<&'static str>| Err("out of rules".to_owned()),
    );
    assert_eq!(
        result,
        Err(SolverError::Runtime(
            "Failed to rewrite dominance constraint for Minion solving: out of rules".to_owned()
        ))
    );
    assert_eq!(*count.borrow(), 1);
}

#[test]
fn a_blocker_that_minion_has_no_form_for_ends_the_search_with_its_error() {
    let mut model = bools(vec!["x", "y"]);
    model.dominance = Some(pareto("x", "y"));
    let mut minion = Minion::new();
    assert_eq!(minion.load_model(model, &model_to_minion), Ok(()));
    let result = solve(
        &mut minion,
        &|_: &Solution| true,
        &|mut model: Model, _: &Vec<&'static str>| {
            model.add_constraint(Expression::Operation("sum", vec![]));
            Ok(model)
        },
    );
    assert_eq!(result, Err(SolverError::Other("no constraint".to_owned())));
    assert!(minion.solver_input().constraints.is_empty());
}

#[test]
fn the_blocker_is_stated_over_the_declarations_of_the_model() {
    let mut model = bools(vec!["x", "y"]);
    model.add_constraint(truth(true));
    model.clauses.push(vec![truth(true)]);
    model.dominance = Some(pareto("x", "y"));
    let template = model.clone();
    let mut minion = Minion::new();
    assert_eq!(minion.load_model(model, &model_to_minion), Ok(()));
    let prepared = RefCell::new(Vec::new());
    let result = solve(
        &mut minion,
        &|_: &Solution| true,
        &|model: Model, rule_sets: &Vec<&'static str>| {
            assert_eq!(*rule_sets, vec!["Base"]);
            prepared.borrow_mut().push(model.clone());
            Ok(model)
        },
    );
    assert!(result.is_ok());
    let prepared = prepared.borrow();
    assert_eq!(prepared.len(), 1);
    assert_eq!(prepared[0].symbols, template.symbols);
    assert_eq!(prepared[0].rule_sets, vec!["Base"]);
    assert!(prepared[0].clauses.is_empty());
    assert_eq!(prepared[0].dominance, None);
    // x and y are false in the solution: none of the later ones may be true of either.
    assert_eq!(
        prepared[0].constraints,
        vec![or(vec![
            truth(false),
            truth(false),
            and(vec![
                or(vec![truth(false), not(Expression::Atomic(atom("x")))]),
                or(vec![truth(false), not(Expression::Atomic(atom("y")))]),
            ]),
        ])]
    );
}

#[test]
fn a_dominance_relation_without_its_mark_is_taken_as_it_is() {
    let marked = pareto("x", "y");
    let bare = match &marked {
        Expression::DominanceRelation(inner) => (**inner).clone(),
        _ => unreachable!(),
    };
    let mut counts = Vec::new();
    for relation in [marked, bare] {
        let mut model = bools(vec!["x", "y"]);
        model.dominance = Some(relation);
        let mut minion = Minion::new();
        assert_eq!(minion.load_model(model, &model_to_minion), Ok(()));
        let count = RefCell::new(0);
        assert!(solve(
            &mut minion,
            &|_: &Solution| {
                *count.borrow_mut() += 1;
                true
            },
            &unchanged
        )
        .is_ok());
        counts.push(*count.borrow());
    }
    assert_eq!(counts, vec![1, 1]);
}

#[test]
fn a_model_that_cannot_be_loaded_leaves_the_one_before() {
    let mut minion = Minion::new();
    assert!(!minion.is_loaded());
    let failing =
        |_: Model| -> Result<MinionModel, SolverError> { Err(SolverError::Other("no".to_owned())) };
    assert_eq!(
        minion.load_model(bools(vec!["x"]), &failing),
        Err(SolverError::Other("no".to_owned()))
    );
    assert!(!minion.is_loaded());
    assert_eq!(minion.load_model(bools(vec!["x"]), &model_to_minion), Ok(()));
    assert!(minion.is_loaded());
    // The dominance relation is then that of the model that was not loaded.
    let mut model = bools(vec!["x", "y"]);
    model.dominance = Some(pareto("x", "y"));
    assert!(minion.load_model(model, &failing).is_err());
    assert_eq!(minion.solver_input().named_variables.get_variable_order(), vec!["x"]);
    let prepared = RefCell::new(0);
    assert!(solve(
        &mut minion,
        &|_: &Solution| true,
        &|_: Model, _: &Vec<&'static str>| {
            *prepared.borrow_mut() += 1;
            Ok(Model::new(vec![]))
        }
    )
    .is_ok());
    assert_eq!(*prepared.borrow(), 2);
}

fn search_with_a_solution(minion: &Minion) -> Search {
    let mut search = minion.start_search();
    let tools = Tools {
        eval_constant,
        run_partial_evaluator,
        value_up: |_: &Representation, _: &Solution| -> Option<Literal> { None },
        rewrite_model: unchanged,
        model_to_minion: |_: Model| -> Result<MinionModel, SolverError> {
            let mut model = MinionModel::new();
            model.constraints.push(Constraint::False);
            Ok(model)
        },
        add_variable: |_: &str, _: &VarDomain, _: ()| (Ok(()), ()),
        add_constraint: |_: &Constraint, _: ()| (Ok(()), ()),
    };
    let raw = vec![("x".to_owned(), Constant::Integer(0)), ("y".to_owned(), Constant::Bool(true))];
    assert!(search.take_solution(minion, &raw, &|_: &Solution, _: ()| (true, ()), &tools, ()).0);
    assert_eq!(search.failure(), None);
    assert_eq!(search.model().constraints, vec![Constraint::False]);
    search
}

#[test]
fn a_run_that_fails_is_reported_and_leaves_the_model() {
    let mut model = bools(vec!["x", "y"]);
    model.dominance = Some(pareto("x", "y"));
    let mut minion = Minion::new();
    assert_eq!(minion.load_model(model, &model_to_minion), Ok(()));
    let text = || "text".to_owned();
    let cases = vec![
        (MinionError::RuntimeError(text()), SolverError::Runtime(text())),
        (MinionError::Other(text()), SolverError::Runtime(text())),
        (MinionError::NotImplemented(text()), SolverError::RuntimeNotImplemented(text())),
        (
            MinionError::Unknown(text()),
            SolverError::Runtime("unknown minion_sys error: text".to_owned()),
        ),
    ];
    for (error, reported) in cases {
        let search = search_with_a_solution(&minion);
        assert_eq!(minion.finish_search(search, Err(error), &None), Err(reported));
        assert!(minion.solver_input().constraints.is_empty());
    }
    let search = search_with_a_solution(&minion);
    assert_eq!(
        minion.finish_search(search, Ok(()), &None),
        Ok(SolveSuccess {
            stats: SolverStats { nodes: None },
            status: SearchStatus::Complete(SearchComplete::HasSolutions),
        })
    );
    assert_eq!(minion.solver_input().constraints, vec![Constraint::False]);
}

#[test]
fn without_a_relation_or_a_template_no_tool_is_asked() {
    let tools = Tools {
        eval_constant: |_: &Expression| -> Option<Literal> { panic!("asked") },
        run_partial_evaluator: |_: &Expression| -> Option<Expression> { panic!("asked") },
        value_up: |_: &Representation, _: &Solution| -> Option<Literal> { panic!("asked") },
        rewrite_model: |_: Model, _: &Vec<&'static str>| -> Result<Model, String> {
            panic!("asked")
        },
        model_to_minion: |_: Model| -> Result<MinionModel, SolverError> { panic!("asked") },
        add_variable: |_: &str, _: &VarDomain, _: u8| -> (Result<(), String>, u8) {
            panic!("asked")
        },
        add_constraint: |_: &Constraint, _: u8| -> (Result<(), String>, u8) { panic!("asked") },
    };
    let relation = pareto("x", "y");
    let template = bools(vec!["x", "y"]);
    let mut model = model_to_minion(bools(vec!["x", "y"])).unwrap();
    for (relation, template) in [(None, Some(&template)), (Some(&relation), None), (None, None)] {
        assert_eq!(
            Minion::add_dominance_constraints_for_solution(
                relation,
                template,
                &Solution::new(),
                &mut model,
                &tools,
                7,
            ),
            (Ok(()), 7)
        );
    }
    assert_eq!(model, model_to_minion(template).unwrap());
}

/// Adds the dominance constraint of a solution that is false of x and y to a search over them,
/// with a rewriter and a translator, and gives the result, the model and all that was sent.
fn block(
    template: &Model,
    rewrite_model: &dyn Fn(Model) -> Result<Model, String>,
    translate: &dyn Fn(Model) -> Result<MinionModel, SolverError>,
) -> (Result<(), SolverError>, MinionModel, Vec<String>) {
    let tools = Tools {
        eval_constant,
        run_partial_evaluator,
        value_up: |_: &Representation, _: &Solution| -> Option<Literal> { None },
        rewrite_model: |model: Model, _: &Vec<&'static str>| rewrite_model(model),
        model_to_minion: |model: Model| translate(model),
        add_variable: |name: &str, _: &VarDomain, mut sent: Vec<String>| {
            sent.push(name.to_owned());
            (Ok(()), sent)
        },
        add_constraint: |constraint: &Constraint, mut sent: Vec<String>| {
            sent.push(format!("{:?}", constraint));
            (Ok(()), sent)
        },
    };
    let mut solution = Solution::new();
    solution.insert(Name::User("x"), Literal::Int(0));
    solution.insert(Name::User("y"), Literal::Int(0));
    let mut model = model_to_minion(bools(vec!["x", "y"])).unwrap();
    let relation = match pareto("x", "y") {
        Expression::DominanceRelation(inner) => *inner,
        _ => unreachable!(),
    };
    let (result, sent) = Minion::add_dominance_constraints_for_solution(
        Some(&relation),
        Some(template),
        &solution,
        &mut model,
        &tools,
        Vec::new(),
    );
    (result, model, sent)
}

#[test]
fn nothing_is_sent_where_there_is_no_blocker() {
    let template = bools(vec!["x", "y"]);
    let before = model_to_minion(bools(vec!["x", "y"])).unwrap();
    assert_eq!(
        block(&template, &|_: Model| Err("no rule".to_owned()), &model_to_minion),
        (
            Err(SolverError::Runtime(
                "Failed to rewrite dominance constraint for Minion solving: no rule".to_owned()
            )),
            before.clone(),
            vec![]
        )
    );
    assert_eq!(
        block(&template, &|model: Model| Ok(model), &|_: Model| Err(SolverError::Other(
            "no form".to_owned()
        ))),
        (Err(SolverError::Other("no form".to_owned())), before, vec![])
    );
}

#[test]
fn only_the_declarations_and_rule_sets_of_the_template_count() {
    let plain = bools(vec!["x", "y"]);
    let mut full = bools(vec!["x", "y"]);
    full.add_constraint(truth(false));
    full.clauses.push(vec![truth(false)]);
    full.dominance = Some(truth(true));
    let rewriter = |model: Model| Ok(model);
    let of_plain = block(&plain, &rewriter, &model_to_minion);
    assert_eq!(of_plain.0, Ok(()));
    assert_eq!(of_plain.2.len(), 1);
    assert_eq!(of_plain, block(&full, &rewriter, &model_to_minion));
}

#[test]
fn the_user_is_asked_once_and_each_request_is_made_once() {
    let mut model = bools(vec!["x", "y"]);
    model.dominance = Some(pareto("x", "y"));
    let mut minion = Minion::new();
    assert_eq!(minion.load_model(model, &model_to_minion), Ok(()));
    let is = |value: i32| {
        Constraint::WLiteral(Var::NameRef("a".to_owned()), Constant::Integer(value))
    };
    let tools = Tools {
        eval_constant,
        run_partial_evaluator,
        value_up: |_: &Representation, _: &Solution| -> Option<Literal> { None },
        rewrite_model: unchanged,
        model_to_minion: |_: Model| {
            let mut model = MinionModel::new();
            model.named_variables.add_var("x".to_owned(), VarDomain::Bool);
            model.named_variables.add_aux_var("a".to_owned(), VarDomain::Bool);
            model.named_variables.add_aux_var("b".to_owned(), VarDomain::Bool);
            model.constraints.push(is(0));
            model.constraints.push(is(1));
            Ok(model)
        },
        add_variable: |name: &str, _: &VarDomain, mut log: Vec<String>| {
            log.push(name.to_owned());
            (Ok(()), log)
        },
        add_constraint: |constraint: &Constraint, mut log: Vec<String>| {
            log.push(format!("{:?}", constraint));
            (Ok(()), log)
        },
    };
    let raw = vec![("x".to_owned(), Constant::Integer(0)), ("y".to_owned(), Constant::Integer(0))];
    let answering = |answer: bool| {
        move |solution: &Solution, mut log: Vec<String>| {
            log.push(format!("{} names, {}", solution.entries().len(), answer));
            (answer, log)
        }
    };
    let mut search = minion.start_search();
    let (go_on, log) = search.take_solution(&minion, &raw, &answering(true), &tools, vec![]);
    assert!(go_on);
    assert_eq!(
        log,
        vec![
            "2 names, true".to_owned(),
            "a".to_owned(),
            "b".to_owned(),
            format!("{:?}", is(0)),
            format!("{:?}", is(1)),
        ]
    );
    // What the search knows by now is not requested again, and nothing is after a no.
    let (go_on, log) = search.take_solution(&minion, &raw, &answering(true), &tools, vec![]);
    assert!(go_on);
    assert_eq!(log.len(), 3);
    let (go_on, log) = search.take_solution(&minion, &raw, &answering(false), &tools, vec![]);
    assert!(!go_on);
    assert_eq!(log, vec!["2 names, false".to_owned()]);
    assert_eq!(search.model().constraints, vec![is(0), is(1), is(0), is(1)]);
}

#[test]
fn what_no_solution_dominates_is_shown() {
    // True of x or y, and of z or not: a solution dominates those that are true of more of x and
    // y, whatever z is.
    let mut model = bools(vec!["x", "y", "z"]);
    model.add_constraint(or(vec![Expression::Atomic(atom("x")), Expression::Atomic(atom("y"))]));
    model.dominance = Some(pareto("x", "y"));
    let mut minion = Minion::new();
    assert_eq!(minion.load_model(model, &model_to_minion), Ok(()));
    let seen = RefCell::new(Vec::new());
    let value = |solution: &Solution, name: &'static str| {
        solution.get(&Name::User(name)) == Some(&Literal::Int(1))
    };
    let result = solve(
        &mut minion,
        &|solution: &Solution| {
            seen.borrow_mut().push((
                value(solution, "x"),
                value(solution, "y"),
                value(solution, "z"),
            ));
            true
        },
        &unchanged,
    );
    assert!(result.is_ok());
    assert_eq!(
        *seen.borrow(),
        vec![
            (false, true, false),
            (false, true, true),
            (true, false, false),
            (true, false, true),
        ]
    );
}

#[test]
fn a_second_search_goes_on_from_the_first() {
    let mut model = bools(vec!["x", "y"]);
    model.add_constraint(or(vec![Expression::Atomic(atom("x")), Expression::Atomic(atom("y"))]));
    model.dominance = Some(pareto("x", "y"));
    let mut minion = Minion::new();
    assert_eq!(minion.load_model(model, &model_to_minion), Ok(()));
    let seen = RefCell::new(Vec::new());
    let show = |solution: &Solution| {
        seen.borrow_mut().push((
            solution.get(&Name::User("x")).cloned(),
            solution.get(&Name::User("y")).cloned(),
        ));
        true
    };
    assert!(solve(&mut minion, &show, &unchanged).is_ok());
    let between = minion.solver_input().clone();
    assert_eq!(between.constraints.len(), 3);
    assert!(solve(&mut minion, &show, &unchanged).is_ok());
    // No solution of the first search dominates itself, and none is true of both.
    let (zero, one) = (Some(Literal::Int(0)), Some(Literal::Int(1)));
    assert_eq!(
        *seen.borrow(),
        vec![
            (zero.clone(), one.clone()),
            (one.clone(), zero.clone()),
            (zero.clone(), one.clone()),
            (one, zero),
        ]
    );
    let after = minion.solver_input();
    assert_eq!(after.constraints.len(), 5);
    assert_eq!(after.constraints[..3], between.constraints[..]);
}

#[test]
fn a_model_is_there_once_a_load_has_succeeded() {
    let failing =
        |_: Model| -> Result<MinionModel, SolverError> { Err(SolverError::Other("no".to_owned())) };
    let mut minion = Minion::new();
    assert!(minion.load_model(bools(vec!["x"]), &failing).is_err());
    assert!(!minion.is_loaded());
    assert!(minion.load_model(bools(vec!["x", "y"]), &model_to_minion).is_ok());
    assert!(minion.is_loaded());
    let search = minion.start_search();
    assert!(minion
        .finish_search(search, Err(MinionError::Other("stopped".to_owned())), &None)
        .is_err());
    assert!(minion.load_model(bools(vec!["z"]), &failing).is_err());
    assert!(minion.is_loaded());
    assert_eq!(minion.solver_input().named_variables.get_variable_order(), vec!["x", "y"]);
}

#[test]
fn represented_values_count_for_dominance_and_are_not_shown() {
    let mut model = bools(vec!["y"]);
    let mut x = Declaration::new_find(Name::User("x"), GroundDomain::Bool);
    x.representations = Some(vec![vec![Representation { id: 3 }]]);
    model.add_symbol(x);
    model.dominance = Some(Expression::Atomic(atom("x")));
    let mut minion = Minion::new();
    assert_eq!(minion.load_model(model, &model_to_minion), Ok(()));
    let mut search = minion.start_search();
    let prepared = RefCell::new(Vec::new());
    let tools = Tools {
        eval_constant,
        run_partial_evaluator,
        value_up: |representation: &Representation, values: &Solution| -> Option<Literal> {
            assert_eq!(representation.id, 3);
            values.get(&Name::Machine(4)).cloned()
        },
        rewrite_model: unchanged,
        model_to_minion: |model: Model| {
            prepared.borrow_mut().push(model.constraints);
            Ok(MinionModel::new())
        },
        add_variable: |_: &str, _: &VarDomain, _: ()| (Ok(()), ()),
        add_constraint: |_: &Constraint, _: ()| (Ok(()), ()),
    };
    let raw = vec![("__conjure_machine_name_4".to_owned(), Constant::Integer(1))];
    let asked = |solution: &Solution, _: ()| {
        assert_eq!(solution.get(&Name::Machine(4)), Some(&Literal::Int(1)));
        assert_eq!(solution.get(&Name::User("x")), None);
        (true, ())
    };
    assert!(search.take_solution(&minion, &raw, &asked, &tools, ()).0);
    assert_eq!(*prepared.borrow(), vec![vec![truth(false)]]);
}

#[test]
fn solutions_are_read() {
    let solution = translate_solution(&vec![
        ("x".to_owned(), Constant::Integer(-4)),
        ("b".to_owned(), Constant::Bool(true)),
        ("__conjure_machine_name_1".to_owned(), Constant::Integer(5)),
        ("__conjure_machine_name_01".to_owned(), Constant::Integer(6)),
        ("__conjure_represented_name__x__r___s".to_owned(), Constant::Integer(0)),
    ]);
    assert_eq!(solution.get(&Name::User("x")), Some(&Literal::Int(-4)));
    assert_eq!(solution.get(&Name::User("b")), Some(&Literal::Bool(true)));
    assert_eq!(solution.get(&Name::Machine(1)), Some(&Literal::Int(6)));
    assert_eq!(
        solution.get(&Name::Represented(Box::new((Name::User("x"), "r", "s")))),
        Some(&Literal::Int(0))
    );
    assert_eq!(solution.entries().len(), 4);
    assert!(translate_solution(&vec![]).entries().is_empty());
}

#[test]
fn stats_tell_of_the_nodes() {
    assert_eq!(get_solver_stats(&None), SolverStats { nodes: None });
    assert_eq!(
        get_solver_stats(&Some("120".to_owned())),
        SolverStats { nodes: Some(120) }
    );
}

#[test]
fn what_the_adaptor_is() {
    let minion = Minion::new();
    assert_eq!(minion.get_family(), SolverFamily::Minion);
    assert_eq!(minion.get_name(), "minion");
    assert_eq!(
        minion.solve_mut(),
        Err(SolverError::OpNotImplemented("solve_mut".to_owned()))
    );
}
