//! Models as Minion takes them.
use crate::text::same_text;
use vstd::prelude::*;

verus! {

/// A constant.
#[derive(Debug, Clone, Copy, PartialEq, Eq, Structural)]
pub enum Constant {
    Bool(bool),
    Integer(i32),
    /// A constant of a kind that no solution holds, known by a number.
    Other(u32),
}

/// A variable, or a constant in the place of one.
#[derive(Debug, PartialEq, Eq)]
pub enum Var {
    NameRef(String),
    ConstantAsVar(i32),
}

/// What a [`Var`] says.
pub enum VarView {
    NameRef(Seq<char>),
    ConstantAsVar(i32),
}

impl Var {
    pub open spec fn view(&self) -> VarView {
        match self {
            Var::NameRef(name) => VarView::NameRef(name@),
            Var::ConstantAsVar(n) => VarView::ConstantAsVar(*n),
        }
    }
}

impl Clone for Var {
    fn clone(&self) -> (copy: Self)
        ensures
            copy@ == self@,
    {
        match self {
            Var::NameRef(name) => Var::NameRef(name.clone()),
            Var::ConstantAsVar(n) => Var::ConstantAsVar(*n),
        }
    }
}

/// The domain of a variable.
#[derive(Debug, PartialEq, Eq)]
pub enum VarDomain {
    Bool,
    Discrete(i32, i32),
    Bound(i32, i32),
    SparseBound(Vec<i32>),
}

/// What a [`VarDomain`] says.
pub enum VarDomainView {
    Bool,
    Discrete(i32, i32),
    Bound(i32, i32),
    SparseBound(Seq<i32>),
}

impl VarDomain {
    pub open spec fn view(&self) -> VarDomainView {
        match self {
            VarDomain::Bool => VarDomainView::Bool,
            VarDomain::Discrete(low, high) => VarDomainView::Discrete(*low, *high),
            VarDomain::Bound(low, high) => VarDomainView::Bound(*low, *high),
            VarDomain::SparseBound(values) => VarDomainView::SparseBound(values@),
        }
    }
}

impl Clone for VarDomain {
    fn clone(&self) -> (copy: Self)
        ensures
            copy@ == self@,
    {
        match self {
            VarDomain::Bool => VarDomain::Bool,
            VarDomain::Discrete(low, high) => VarDomain::Discrete(*low, *high),
            VarDomain::Bound(low, high) => VarDomain::Bound(*low, *high),
            VarDomain::SparseBound(values) => {
                let mut copy: Vec<i32> = Vec::new();
                for i in 0..values.len()
                    invariant
                        copy@ == values@.take(i as int),
                {
                    copy.push(values[i]);
                    assert(copy@ =~= values@.take(i + 1));
                }
                assert(copy@ =~= values@);
                VarDomain::SparseBound(copy)
            },
        }
    }
}

/// A constraint.
#[derive(Debug, PartialEq, Eq)]
pub enum Constraint {
    True,
    False,
    Eq(Var, Var),
    WLiteral(Var, Constant),
    WatchedAnd(Vec<Constraint>),
    WatchedOr(Vec<Constraint>),
    WatchSumGeq(Vec<Var>, Constant),
    WatchSumLeq(Vec<Var>, Constant),
    WeightedSumLeq(Vec<Constant>, Vec<Var>, Var),
    /// Any other constraint, by its name and its variables.
    Other(String, Vec<Var>),
}

/// What a [`Constraint`] says.
pub enum ConstraintView {
    True,
    False,
    Eq(VarView, VarView),
    WLiteral(VarView, Constant),
    WatchedAnd(Seq<ConstraintView>),
    WatchedOr(Seq<ConstraintView>),
    WatchSumGeq(Seq<VarView>, Constant),
    WatchSumLeq(Seq<VarView>, Constant),
    WeightedSumLeq(Seq<Constant>, Seq<VarView>, VarView),
    Other(Seq<char>, Seq<VarView>),
}

/// What some variables say.
pub open spec fn var_views(vars: Seq<Var>) -> Seq<VarView> {
    Seq::new(vars.len(), |i: int| vars[i]@)
}

/// What some constraints say.
pub open spec fn constraint_views(constraints: Seq<Constraint>) -> Seq<ConstraintView> {
    Seq::new(constraints.len(), |i: int| constraints[i]@)
}

impl Constraint {
    pub open spec fn view(&self) -> ConstraintView
        decreases self,
    {
        match self {
            Constraint::True => ConstraintView::True,
            Constraint::False => ConstraintView::False,
            Constraint::Eq(x, y) => ConstraintView::Eq(x@, y@),
            Constraint::WLiteral(x, value) => ConstraintView::WLiteral(x@, *value),
            Constraint::WatchedAnd(items) => ConstraintView::WatchedAnd(
                Seq::new(
                    items@.len(),
                    |i: int| if 0 <= i < items@.len() { items@[i].view() } else { arbitrary() },
                ),
            ),
            Constraint::WatchedOr(items) => ConstraintView::WatchedOr(
                Seq::new(
                    items@.len(),
                    |i: int| if 0 <= i < items@.len() { items@[i].view() } else { arbitrary() },
                ),
            ),
            Constraint::WatchSumGeq(vars, sum) => ConstraintView::WatchSumGeq(
                var_views(vars@),
                *sum,
            ),
            Constraint::WatchSumLeq(vars, sum) => ConstraintView::WatchSumLeq(
                var_views(vars@),
                *sum,
            ),
            Constraint::WeightedSumLeq(weights, vars, sum) => ConstraintView::WeightedSumLeq(
                weights@,
                var_views(vars@),
                sum@,
            ),
            Constraint::Other(name, vars) => ConstraintView::Other(name@, var_views(vars@)),
        }
    }
}

fn clone_vars(vars: &Vec<Var>) -> (copy: Vec<Var>)
    ensures
        var_views(copy@) == var_views(vars@),
{
    let mut copy: Vec<Var> = Vec::new();
    for i in 0..vars.len()
        invariant
            copy@.len() == i,
            forall|k: int| 0 <= k < i ==> (#[trigger] copy@[k])@ == vars@[k]@,
    {
        copy.push(vars[i].clone());
    }
    assert(var_views(copy@) =~= var_views(vars@));
    copy
}

fn clone_constants(constants: &Vec<Constant>) -> (copy: Vec<Constant>)
    ensures
        copy@ == constants@,
{
    let mut copy: Vec<Constant> = Vec::new();
    for i in 0..constants.len()
        invariant
            copy@ == constants@.take(i as int),
    {
        copy.push(constants[i]);
        assert(copy@ =~= constants@.take(i + 1));
    }
    assert(copy@ =~= constants@);
    copy
}

fn clone_constraints(constraints: &Vec<Constraint>) -> (copy: Vec<Constraint>)
    ensures
        constraint_views(copy@) == constraint_views(constraints@),
    decreases constraints,
{
    let mut copy: Vec<Constraint> = Vec::new();
    for i in 0..constraints.len()
        invariant
            copy@.len() == i,
            forall|k: int| 0 <= k < i ==> (#[trigger] copy@[k])@ == constraints@[k]@,
    {
        assert(decreases_to!(constraints => constraints@[i as int]));
        copy.push(constraints[i].clone());
    }
    assert(constraint_views(copy@) =~= constraint_views(constraints@));
    copy
}

proof fn lemma_constraint_view(constraint: Constraint)
    ensures
        match constraint {
            Constraint::WatchedAnd(items) => constraint@ == ConstraintView::WatchedAnd(
                constraint_views(items@),
            ),
            Constraint::WatchedOr(items) => constraint@ == ConstraintView::WatchedOr(
                constraint_views(items@),
            ),
            _ => true,
        },
{
    match constraint {
        Constraint::WatchedAnd(items) => {
            assert(constraint@->WatchedAnd_0 =~= constraint_views(items@));
        },
        Constraint::WatchedOr(items) => {
            assert(constraint@->WatchedOr_0 =~= constraint_views(items@));
        },
        _ => {},
    }
}

impl Clone for Constraint {
    fn clone(&self) -> (copy: Self)
        ensures
            copy@ == self@,
        decreases self,
    {
        let copy = match self {
            Constraint::True => Constraint::True,
            Constraint::False => Constraint::False,
            Constraint::Eq(x, y) => Constraint::Eq(x.clone(), y.clone()),
            Constraint::WLiteral(x, value) => Constraint::WLiteral(x.clone(), *value),
            Constraint::WatchedAnd(items) => Constraint::WatchedAnd(clone_constraints(items)),
            Constraint::WatchedOr(items) => Constraint::WatchedOr(clone_constraints(items)),
            Constraint::WatchSumGeq(vars, sum) => Constraint::WatchSumGeq(clone_vars(vars), *sum),
            Constraint::WatchSumLeq(vars, sum) => Constraint::WatchSumLeq(clone_vars(vars), *sum),
            Constraint::WeightedSumLeq(weights, vars, sum) => Constraint::WeightedSumLeq(
                clone_constants(weights),
                clone_vars(vars),
                sum.clone(),
            ),
            Constraint::Other(name, vars) => Constraint::Other(name.clone(), clone_vars(vars)),
        };
        proof {
            lemma_constraint_view(*self);
            lemma_constraint_view(copy);
        }
        copy
    }
}

/// The variables of a model: their domains, the order in which they were added, and the order in
/// which those are searched that are to be searched.
#[derive(Debug, PartialEq, Eq)]
pub struct NamedVariables {
    pub domains: Vec<(String, VarDomain)>,
    pub variable_order: Vec<String>,
    pub search_order: Vec<String>,
}

/// What [`NamedVariables`] say.
pub struct NamedVariablesView {
    pub domains: Seq<(Seq<char>, VarDomainView)>,
    pub variable_order: Seq<Seq<char>>,
    pub search_order: Seq<Seq<char>>,
}

/// What some names say.
pub open spec fn name_views(names: Seq<String>) -> Seq<Seq<char>> {
    Seq::new(names.len(), |i: int| names[i]@)
}

/// What some names and their domains say.
pub open spec fn domain_views(domains: Seq<(String, VarDomain)>) -> Seq<
    (Seq<char>, VarDomainView),
> {
    Seq::new(domains.len(), |i: int| (domains[i].0@, domains[i].1@))
}

/// The first domain that is listed for a name.
pub open spec fn domain_in(
    domains: Seq<(Seq<char>, VarDomainView)>,
    name: Seq<char>,
) -> Option<VarDomainView>
    decreases domains.len(),
{
    if domains.len() == 0 {
        None
    } else if domains[0].0 == name {
        Some(domains[0].1)
    } else {
        domain_in(domains.drop_first(), name)
    }
}

impl NamedVariablesView {
    /// The domain of a variable, if it has one.
    pub open spec fn domain_of(self, name: Seq<char>) -> Option<VarDomainView> {
        domain_in(self.domains, name)
    }

    /// The variables with one more that is not searched.
    pub open spec fn with_aux_var(self, name: Seq<char>, domain: VarDomainView) -> Self {
        NamedVariablesView {
            domains: self.domains.push((name, domain)),
            variable_order: self.variable_order.push(name),
            search_order: self.search_order,
        }
    }

    /// The variables with one more that is searched.
    pub open spec fn with_var(self, name: Seq<char>, domain: VarDomainView) -> Self {
        NamedVariablesView {
            search_order: self.search_order.push(name),
            ..self.with_aux_var(name, domain)
        }
    }

    /// Every variable has one domain and is listed once; those that are searched are among them.
    pub open spec fn wf(self) -> bool {
        &&& self.domains.len() == self.variable_order.len()
        &&& forall|i: int|
            0 <= i < self.domains.len() ==> (#[trigger] self.domains[i]).0
                == self.variable_order[i]
        &&& forall|i: int, j: int|
            0 <= i < j < self.variable_order.len() ==> #[trigger] self.variable_order[i]
                != #[trigger] self.variable_order[j]
        &&& forall|i: int|
            0 <= i < self.search_order.len() ==> self.variable_order.contains(
                #[trigger] self.search_order[i],
            )
    }
}

/// Whether a name is among some names.
pub fn contains_name(names: &Vec<String>, name: &str) -> (found: bool)
    ensures
        found == name_views(names@).contains(name@),
{
    for i in 0..names.len()
        invariant
            forall|k: int| 0 <= k < i ==> (#[trigger] names@[k])@ != name@,
    {
        if same_text(names[i].as_str(), name) {
            assert(name_views(names@)[i as int] == name@);
            return true;
        }
    }
    proof {
        if name_views(names@).contains(name@) {
            let k = choose|k: int|
                0 <= k < name_views(names@).len() && name_views(names@)[k] == name@;
            assert(names@[k]@ != name@);
        }
    }
    false
}

fn clone_names(names: &Vec<String>) -> (copy: Vec<String>)
    ensures
        name_views(copy@) == name_views(names@),
{
    let mut copy: Vec<String> = Vec::new();
    for i in 0..names.len()
        invariant
            copy@.len() == i,
            forall|k: int| 0 <= k < i ==> (#[trigger] copy@[k])@ == names@[k]@,
    {
        copy.push(names[i].clone());
    }
    assert(name_views(copy@) =~= name_views(names@));
    copy
}

impl NamedVariables {
    pub open spec fn view(&self) -> NamedVariablesView {
        NamedVariablesView {
            domains: domain_views(self.domains@),
            variable_order: name_views(self.variable_order@),
            search_order: name_views(self.search_order@),
        }
    }

    /// No variables.
    pub fn new() -> (variables: NamedVariables)
        ensures
            variables@ == (NamedVariablesView {
                domains: Seq::empty(),
                variable_order: Seq::empty(),
                search_order: Seq::empty(),
            }),
    {
        let variables = NamedVariables {
            domains: Vec::new(),
            variable_order: Vec::new(),
            search_order: Vec::new(),
        };
        assert(variables@.domains =~= Seq::empty());
        assert(variables@.variable_order =~= Seq::empty());
        assert(variables@.search_order =~= Seq::empty());
        variables
    }

    /// The domain of a variable, if it has one.
    pub fn get_vartype(&self, name: &str) -> (domain: Option<VarDomain>)
        ensures
            match domain {
                Some(domain) => self@.domain_of(name@) == Some(domain@),
                None => self@.domain_of(name@) is None,
            },
    {
        let ghost domains = self@.domains;
        assert(domains.skip(0) =~= domains);
        for i in 0..self.domains.len()
            invariant
                domains == self@.domains,
                domain_in(domains, name@) == domain_in(domains.skip(i as int), name@),
        {
            assert(domains.skip(i as int)[0] == (
                self.domains@[i as int].0@,
                self.domains@[i as int].1@,
            ));
            assert(domains.skip(i as int).drop_first() =~= domains.skip(i + 1));
            if same_text(self.domains[i].0.as_str(), name) {
                return Some(self.domains[i].1.clone());
            }
        }
        None
    }

    /// The names of all variables, in the order in which they were added.
    pub fn get_variable_order(&self) -> (names: Vec<String>)
        ensures
            name_views(names@) == self@.variable_order,
    {
        clone_names(&self.variable_order)
    }

    /// The names of the variables to be searched, in the order in which they are.
    pub fn get_search_variable_order(&self) -> (names: Vec<String>)
        ensures
            name_views(names@) == self@.search_order,
    {
        clone_names(&self.search_order)
    }

    /// Adds a variable that is not searched; `None`, and nothing is added, if the name has a
    /// domain.
    pub fn add_aux_var(&mut self, name: String, domain: VarDomain) -> (added: Option<()>)
        ensures
            added is Some <==> old(self)@.domain_of(name@) is None,
            final(self)@ == if added is Some {
                old(self)@.with_aux_var(name@, domain@)
            } else {
                old(self)@
            },
    {
        if self.get_vartype(name.as_str()).is_some() {
            return None;
        }
        let ghost before = self@;
        let ghost entry = (name@, domain@);
        self.domains.push((name.clone(), domain));
        self.variable_order.push(name);
        assert(self@.domains =~= before.domains.push(entry));
        assert(self@.variable_order =~= before.variable_order.push(entry.0));
        Some(())
    }

    /// Adds a variable that is searched; `None`, and nothing is added, if the name has a domain.
    pub fn add_var(&mut self, name: String, domain: VarDomain) -> (added: Option<()>)
        ensures
            added is Some <==> old(self)@.domain_of(name@) is None,
            final(self)@ == if added is Some {
                old(self)@.with_var(name@, domain@)
            } else {
                old(self)@
            },
    {
        let ghost before = self@;
        let searched = name.clone();
        match self.add_aux_var(name, domain) {
            Some(()) => {
                self.search_order.push(searched);
                assert(self@.search_order =~= before.search_order.push(searched@));
                Some(())
            },
            None => None,
        }
    }
}

impl Clone for NamedVariables {
    fn clone(&self) -> (copy: Self)
        ensures
            copy@ == self@,
    {
        let mut domains: Vec<(String, VarDomain)> = Vec::new();
        for i in 0..self.domains.len()
            invariant
                domains@.len() == i,
                forall|k: int|
                    0 <= k < i ==> (#[trigger] domains@[k]).0@ == self.domains@[k].0@
                        && domains@[k].1@ == self.domains@[k].1@,
        {
            domains.push((self.domains[i].0.clone(), self.domains[i].1.clone()));
        }
        assert(domain_views(domains@) =~= domain_views(self.domains@));
        NamedVariables {
            domains,
            variable_order: clone_names(&self.variable_order),
            search_order: clone_names(&self.search_order),
        }
    }
}

/// A model as Minion takes it.
#[derive(Debug, PartialEq, Eq)]
pub struct MinionModel {
    pub named_variables: NamedVariables,
    pub constraints: Vec<Constraint>,
}

/// What a [`MinionModel`] says.
pub struct MinionModelView {
    pub named_variables: NamedVariablesView,
    pub constraints: Seq<ConstraintView>,
}

impl MinionModel {
    pub open spec fn view(&self) -> MinionModelView {
        MinionModelView {
            named_variables: self.named_variables@,
            constraints: constraint_views(self.constraints@),
        }
    }

    /// A model without variables and constraints.
    pub fn new() -> (model: MinionModel)
        ensures
            model@ == (MinionModelView {
                named_variables: NamedVariablesView {
                    domains: Seq::empty(),
                    variable_order: Seq::empty(),
                    search_order: Seq::empty(),
                },
                constraints: Seq::empty(),
            }),
    {
        let model = MinionModel { named_variables: NamedVariables::new(), constraints: Vec::new() };
        assert(model@.constraints =~= Seq::empty());
        model
    }
}

impl Clone for MinionModel {
    fn clone(&self) -> (copy: Self)
        ensures
            copy@ == self@,
    {
        MinionModel {
            named_variables: self.named_variables.clone(),
            constraints: clone_constraints(&self.constraints),
        }
    }
}

/// Of well-formed variables, just those have a domain that are listed.
pub proof fn lemma_unlisted(variables: NamedVariablesView, name: Seq<char>)
    requires
        variables.wf(),
    ensures
        variables.domain_of(name) is None <==> !variables.variable_order.contains(name),
{
    lemma_domain_in(variables.domains, name);
    if variables.domain_of(name) is Some {
        let i = choose|i: int|
            0 <= i < variables.domains.len() && (#[trigger] variables.domains[i]).0 == name;
        assert(variables.variable_order[i] == name);
    }
    if variables.variable_order.contains(name) {
        let i = choose|i: int|
            0 <= i < variables.variable_order.len() && variables.variable_order[i] == name;
        assert(variables.domains[i].0 == name);
    }
}

proof fn lemma_domain_in(domains: Seq<(Seq<char>, VarDomainView)>, name: Seq<char>)
    ensures
        domain_in(domains, name) is Some <==> exists|i: int|
            0 <= i < domains.len() && (#[trigger] domains[i]).0 == name,
    decreases domains.len(),
{
    if domains.len() > 0 {
        lemma_domain_in(domains.drop_first(), name);
        if domains[0].0 != name {
            if domain_in(domains.drop_first(), name) is Some {
                let i = choose|i: int|
                    0 <= i < domains.drop_first().len() && (#[trigger] domains.drop_first()[i]).0
                        == name;
                assert(domains[i + 1].0 == name);
            }
            if exists|i: int| 0 <= i < domains.len() && (#[trigger] domains[i]).0 == name {
                let i = choose|i: int| 0 <= i < domains.len() && (#[trigger] domains[i]).0 == name;
                assert(domains.drop_first()[i - 1].0 == name);
            }
        }
    }
}

/// Adding a variable that has no domain yet, to be searched or not, keeps the variables well
/// formed, and leaves the domains of all others as they were.
pub proof fn law_adding_a_variable_keeps_the_others(
    variables: NamedVariablesView,
    name: Seq<char>,
    domain: VarDomainView,
    other: Seq<char>,
)
    requires
        variables.wf(),
        variables.domain_of(name) is None,
    ensures
        variables.with_aux_var(name, domain).wf(),
        variables.with_var(name, domain).wf(),
        variables.with_aux_var(name, domain).domain_of(name) == Some(domain),
        other != name ==> variables.with_aux_var(name, domain).domain_of(other)
            == variables.domain_of(other),
{
    lemma_unlisted(variables, name);
    let after = variables.with_aux_var(name, domain);
    let searched = variables.with_var(name, domain);
    lemma_domain_pushed(variables.domains, name, domain, other);
    lemma_domain_pushed(variables.domains, name, domain, name);
    assert forall|i: int| 0 <= i < after.search_order.len() implies after.variable_order.contains(
        #[trigger] after.search_order[i],
    ) by {
        let k = choose|k: int|
            0 <= k < variables.variable_order.len() && variables.variable_order[k]
                == variables.search_order[i];
        assert(after.variable_order[k] == after.search_order[i]);
    }
    assert forall|i: int|
        0 <= i < searched.search_order.len() implies searched.variable_order.contains(
        #[trigger] searched.search_order[i],
    ) by {
        if i < variables.search_order.len() {
            assert(after.search_order[i] == searched.search_order[i]);
        } else {
            assert(searched.variable_order[variables.variable_order.len() as int] == name);
        }
    }
}

proof fn lemma_domain_pushed(
    domains: Seq<(Seq<char>, VarDomainView)>,
    name: Seq<char>,
    domain: VarDomainView,
    other: Seq<char>,
)
    ensures
        domain_in(domains.push((name, domain)), other) == match domain_in(domains, other) {
            Some(found) => Some(found),
            None => if other == name {
                Some(domain)
            } else {
                None
            },
        },
    decreases domains.len(),
{
    let after = domains.push((name, domain));
    if domains.len() > 0 {
        lemma_domain_pushed(domains.drop_first(), name, domain, other);
        assert(after.drop_first() =~= domains.drop_first().push((name, domain)));
    } else {
        assert(after.drop_first() =~= Seq::empty());
        assert(domain_in(after.drop_first(), other) is None);
    }
}

} // verus!
