use minion_adaptor::error::SolverError;
use minion_adaptor::injection::{inject, BlockerError, Injection, Request};
use minion_adaptor::minion_ast::{
    Constant, Constraint, MinionModel, NamedVariables, Var, VarDomain,
};
use std::cell::RefCell;

fn runtime(text: &str) -> SolverError {
    SolverError::Runtime(text.to_owned())
}

fn is(name: &str, value: i32) -> Constraint {
    Constraint::WLiteral(Var::NameRef(name.to_owned()), Constant::Integer(value))
}

/// A model that searches `x` and `y`.
fn searched() -> MinionModel {
    let mut model = MinionModel::new();
    assert_eq!(model.named_variables.add_var("x".to_owned(), VarDomain::Bool), Some(()));
    assert_eq!(
        model.named_variables.add_var("y".to_owned(), VarDomain::Discrete(0, 3)),
        Some(())
    );
    model.constraints.push(is("x", 1));
    model
}

/// A dominance constraint over `x`, with auxiliary variables of these names.
fn blocker(aux: Vec<&str>) -> MinionModel {
    let mut model = MinionModel::new();
    assert_eq!(model.named_variables.add_var("x".to_owned(), VarDomain::Bool), Some(()));
    for name in aux {
        assert_eq!(
            model.named_variables.add_aux_var(name.to_owned(), VarDomain::Bound(0, 1)),
            Some(())
        );
    }
    model.constraints.push(is("x", 0));
    model.constraints.push(Constraint::WatchedOr(vec![is("x", 0), is("x", 1)]));
    model
}

/// What a search is asked, and how it replies: with an error to the request of this number.
struct Asked {
    requests: RefCell<Vec<String>>,
    refused: Option<usize>,
}

impl Asked {
    fn new(refused: Option<usize>) -> Asked {
        Asked { requests: RefCell::new(Vec::new()), refused }
    }

    fn reply(&self, request: String, mut log: Vec<String>) -> (Result<(), String>, Vec<String>) {
        log.push(request);
        if Some(log.len()) == self.refused {
            (Err("no room".to_owned()), log)
        } else {
            (Ok(()), log)
        }
    }

    fn run(
        &self,
        model: &mut MinionModel,
        blocker: Result<MinionModel, BlockerError>,
    ) -> Result<(), SolverError> {
        let (result, log) = inject(
            model,
            blocker,
            &|name: &str, domain: &VarDomain, log: Vec<String>| {
                self.reply(format!("{} {:?}", name, domain), log)
            },
            &|constraint: &Constraint, log: Vec<String>| {
                self.reply(format!("{:?}", constraint), log)
            },
            self.requests.take(),
        );
        self.requests.replace(log);
        result
    }
}

#[test]
fn variables_come_first_and_then_constraints() {
    let mut model = searched();
    let asked = Asked::new(None);
    assert_eq!(asked.run(&mut model, Ok(blocker(vec!["a", "b"]))), Ok(()));
    let constraints = blocker(vec![]).constraints;
    assert_eq!(
        *asked.requests.borrow(),
        vec![
            "a Bound(0, 1)".to_owned(),
            "b Bound(0, 1)".to_owned(),
            format!("{:?}", constraints[0]),
            format!("{:?}", constraints[1]),
        ]
    );
    assert_eq!(model.named_variables.get_variable_order(), vec!["x", "y", "a", "b"]);
    assert_eq!(model.named_variables.get_search_variable_order(), vec!["x", "y"]);
    assert_eq!(model.named_variables.get_vartype("b"), Some(VarDomain::Bound(0, 1)));
    assert_eq!(
        model.constraints,
        vec![is("x", 1), constraints[0].clone(), constraints[1].clone()]
    );
}

#[test]
fn known_variables_are_not_added_again() {
    let mut model = searched();
    let asked = Asked::new(None);
    let mut second = blocker(vec!["a"]);
    assert_eq!(asked.run(&mut model, Ok(blocker(vec!["a"]))), Ok(()));
    second.named_variables.add_aux_var("y".to_owned(), VarDomain::Bool);
    assert_eq!(asked.run(&mut model, Ok(second)), Ok(()));
    assert_eq!(model.named_variables.get_variable_order(), vec!["x", "y", "a"]);
    assert_eq!(model.named_variables.get_vartype("y"), Some(VarDomain::Discrete(0, 3)));
    assert_eq!(model.constraints.len(), 5);
}

#[test]
fn an_unexpected_search_variable_is_an_error() {
    let mut model = searched();
    let asked = Asked::new(None);
    let mut bad = blocker(vec!["a"]);
    bad.named_variables.add_var("z\"1".to_owned(), VarDomain::Bool);
    assert_eq!(
        asked.run(&mut model, Ok(bad)),
        Err(runtime(
            "Dominance constraint introduced unexpected search variable \"z\\\"1\" during Minion solving"
        ))
    );
    // What came before it was added.
    assert_eq!(model.named_variables.get_variable_order(), vec!["x", "y", "a"]);
    assert_eq!(model.constraints.len(), 1);
    assert_eq!(asked.requests.borrow().len(), 1);
}

#[test]
fn the_first_unexpected_search_variable_is_named() {
    let mut model = searched();
    let asked = Asked::new(None);
    let mut bad = blocker(vec![]);
    bad.named_variables.add_var("p".to_owned(), VarDomain::Bool);
    bad.named_variables.add_var("q".to_owned(), VarDomain::Bool);
    assert_eq!(
        asked.run(&mut model, Ok(bad)),
        Err(runtime(
            "Dominance constraint introduced unexpected search variable \"p\" during Minion solving"
        ))
    );
    assert_eq!(model, searched());
}

#[test]
fn a_variable_without_a_domain_is_an_error() {
    let mut model = searched();
    let asked = Asked::new(None);
    let mut bad = blocker(vec![]);
    bad.named_variables.variable_order.push("a b".to_owned());
    assert_eq!(
        asked.run(&mut model, Ok(bad)),
        Err(runtime("Missing Minion domain for dominance variable \"a b\""))
    );
    assert_eq!(model, searched());
    assert!(asked.requests.borrow().is_empty());
}

#[test]
fn a_variable_that_the_search_refuses_is_an_error() {
    let mut model = searched();
    let asked = Asked::new(Some(2));
    assert_eq!(
        asked.run(&mut model, Ok(blocker(vec!["a", "b\n"]))),
        Err(runtime("Failed adding Minion dominance variable \"b\\n\": no room"))
    );
    assert_eq!(model.named_variables.get_variable_order(), vec!["x", "y", "a"]);
    assert_eq!(model.constraints.len(), 1);
}

#[test]
fn a_variable_that_cannot_be_tracked_is_an_error() {
    let mut model = searched();
    // The model has a domain for `a`, though the variable is not listed.
    model.named_variables.domains.push(("a".to_owned(), VarDomain::Bool));
    let asked = Asked::new(None);
    assert_eq!(
        asked.run(&mut model, Ok(blocker(vec!["a"]))),
        Err(runtime("Failed tracking Minion dominance variable \"a\""))
    );
    assert_eq!(asked.requests.borrow().len(), 1);
    assert_eq!(model.named_variables.get_variable_order(), vec!["x", "y"]);
}

#[test]
fn a_constraint_that_the_search_refuses_is_an_error() {
    let mut model = searched();
    let asked = Asked::new(Some(3));
    assert_eq!(
        asked.run(&mut model, Ok(blocker(vec!["a"]))),
        Err(runtime("Failed adding Minion dominance constraint during search: no room"))
    );
    assert_eq!(model.named_variables.get_variable_order(), vec!["x", "y", "a"]);
    assert_eq!(model.constraints, vec![is("x", 1), is("x", 0)]);
}

#[test]
fn without_a_blocker_there_is_an_error() {
    let mut model = searched();
    let asked = Asked::new(None);
    assert_eq!(
        asked.run(&mut model, Err(BlockerError::Rewriting("no rule".to_owned()))),
        Err(runtime("Failed to rewrite dominance constraint for Minion solving: no rule"))
    );
    assert_eq!(
        asked.run(
            &mut model,
            Err(BlockerError::Translation(SolverError::Other("no such domain".to_owned())))
        ),
        Err(SolverError::Other("no such domain".to_owned()))
    );
    assert_eq!(model, searched());
    assert!(asked.requests.borrow().is_empty());
}

#[test]
fn an_injection_can_be_run_step_by_step() {
    let mut model = searched();
    let mut injection = Injection::new(&model, Ok(blocker(vec!["a"]))).unwrap();
    assert_eq!(
        injection.request(),
        Ok(Request::AddVariable("a".to_owned(), VarDomain::Bound(0, 1)))
    );
    assert_eq!(injection.reply(&mut model, Ok(())), Ok(()));
    assert_eq!(injection.request(), Ok(Request::AddConstraint(is("x", 0))));
    // A refused request stays the next one.
    assert_eq!(
        injection.reply(&mut model, Err("busy".to_owned())),
        Err(runtime("Failed adding Minion dominance constraint during search: busy"))
    );
    assert_eq!(injection.request(), Ok(Request::AddConstraint(is("x", 0))));
    assert_eq!(injection.reply(&mut model, Ok(())), Ok(()));
    assert_eq!(injection.reply(&mut model, Ok(())), Ok(()));
    assert_eq!(injection.request(), Ok(Request::Nothing));
    assert_eq!(injection.reply(&mut model, Ok(())), Ok(()));
    assert_eq!(model.constraints.len(), 3);
}

#[test]
fn a_variable_can_be_added_once() {
    let mut variables = NamedVariables::new();
    assert_eq!(variables.add_var("x".to_owned(), VarDomain::SparseBound(vec![1, 5])), Some(()));
    assert_eq!(variables.add_aux_var("x".to_owned(), VarDomain::Bool), None);
    assert_eq!(variables.add_var("x".to_owned(), VarDomain::Bool), None);
    assert_eq!(variables.add_aux_var("y".to_owned(), VarDomain::Bool), Some(()));
    assert_eq!(variables.get_vartype("x"), Some(VarDomain::SparseBound(vec![1, 5])));
    assert_eq!(variables.get_vartype("y"), Some(VarDomain::Bool));
    assert_eq!(variables.get_vartype("z"), None);
    assert_eq!(variables.get_variable_order(), vec!["x", "y"]);
    assert_eq!(variables.get_search_variable_order(), vec!["x"]);
}
