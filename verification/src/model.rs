//! Models: declarations, and the constraints on them.
use crate::expression::{
    clone_expressions, expression_views, optional_view, Expression, ExpressionView, GroundDomain,
};
use crate::name::{Name, NameView};
use vstd::prelude::*;

verus! {

/// A representation of a variable by others, known by a number.
#[derive(Debug, Clone, Copy, PartialEq, Eq, Structural)]
pub struct Representation {
    pub id: u64,
}

/// A declared name.
#[derive(Debug, PartialEq, Eq)]
pub struct Declaration {
    pub name: Name,
    pub domain: Option<GroundDomain>,
    /// What represents the name; `None` for what is not to be found by the solver. Each item is a
    /// chain of representations, the first of which represents the name itself.
    pub representations: Option<Vec<Vec<Representation>>>,
}

/// What a [`Declaration`] says.
pub struct DeclarationView {
    pub name: NameView,
    pub domain: Option<GroundDomain>,
    pub representations: Option<Seq<Seq<Representation>>>,
}

/// What some chains of representations say.
pub open spec fn chain_views(chains: Seq<Vec<Representation>>) -> Seq<Seq<Representation>> {
    Seq::new(chains.len(), |i: int| chains[i]@)
}

impl Declaration {
    pub open spec fn view(&self) -> DeclarationView {
        DeclarationView {
            name: self.name@,
            domain: self.domain,
            representations: match self.representations {
                Some(chains) => Some(chain_views(chains@)),
                None => None,
            },
        }
    }

    /// Declares a variable for the solver to find, as yet without representations.
    pub fn new_find(name: Name, domain: GroundDomain) -> (declaration: Declaration)
        ensures
            declaration@ == (DeclarationView {
                name: name@,
                domain: Some(domain),
                representations: Some(Seq::empty()),
            }),
    {
        let chains: Vec<Vec<Representation>> = Vec::new();
        assert(chain_views(chains@) =~= Seq::empty());
        Declaration { name, domain: Some(domain), representations: Some(chains) }
    }
}

fn clone_chain(chain: &Vec<Representation>) -> (copy: Vec<Representation>)
    ensures
        copy@ == chain@,
{
    let mut copy: Vec<Representation> = Vec::new();
    for i in 0..chain.len()
        invariant
            copy@ == chain@.take(i as int),
    {
        copy.push(chain[i]);
        assert(copy@ =~= chain@.take(i + 1));
    }
    assert(copy@ =~= chain@);
    copy
}

fn clone_chains(chains: &Vec<Vec<Representation>>) -> (copy: Vec<Vec<Representation>>)
    ensures
        chain_views(copy@) == chain_views(chains@),
{
    let mut copy: Vec<Vec<Representation>> = Vec::new();
    for i in 0..chains.len()
        invariant
            copy@.len() == i,
            forall|k: int| 0 <= k < i ==> (#[trigger] copy@[k])@ == chains@[k]@,
    {
        copy.push(clone_chain(&chains[i]));
    }
    assert(chain_views(copy@) =~= chain_views(chains@));
    copy
}

impl Clone for Declaration {
    fn clone(&self) -> (copy: Self)
        ensures
            copy@ == self@,
    {
        Declaration {
            name: self.name.clone(),
            domain: self.domain,
            representations: match &self.representations {
                Some(chains) => Some(clone_chains(chains)),
                None => None,
            },
        }
    }
}

/// A constraint model.
#[derive(Debug, PartialEq, Eq)]
pub struct Model {
    pub symbols: Vec<Declaration>,
    pub constraints: Vec<Expression>,
    pub clauses: Vec<Vec<Expression>>,
    pub dominance: Option<Expression>,
    /// The rule sets by which the model is to be rewritten.
    pub rule_sets: Vec<&'static str>,
}

/// What a [`Model`] says.
pub struct ModelView {
    pub symbols: Seq<DeclarationView>,
    pub constraints: Seq<ExpressionView>,
    pub clauses: Seq<Seq<ExpressionView>>,
    pub dominance: Option<ExpressionView>,
    pub rule_sets: Seq<&'static str>,
}

/// What some declarations say.
pub open spec fn declaration_views(symbols: Seq<Declaration>) -> Seq<DeclarationView> {
    Seq::new(symbols.len(), |i: int| symbols[i]@)
}

/// What some clauses say.
pub open spec fn clause_views(clauses: Seq<Vec<Expression>>) -> Seq<Seq<ExpressionView>> {
    Seq::new(clauses.len(), |i: int| expression_views(clauses[i]@))
}

/// The first declaration of a name.
pub open spec fn declared(symbols: Seq<DeclarationView>, name: NameView) -> Option<DeclarationView>
    decreases symbols.len(),
{
    if symbols.len() == 0 {
        None
    } else if symbols[0].name == name {
        Some(symbols[0])
    } else {
        declared(symbols.drop_first(), name)
    }
}

/// What represents a name, as its first declaration says.
pub open spec fn represented(symbols: Seq<DeclarationView>, name: NameView) -> Option<
    Seq<Seq<Representation>>,
> {
    match declared(symbols, name) {
        Some(declaration) => declaration.representations,
        None => None,
    }
}

impl Model {
    pub open spec fn view(&self) -> ModelView {
        ModelView {
            symbols: declaration_views(self.symbols@),
            constraints: expression_views(self.constraints@),
            clauses: clause_views(self.clauses@),
            dominance: optional_view(self.dominance),
            rule_sets: self.rule_sets@,
        }
    }

    /// A model without declarations and constraints.
    pub fn new(rule_sets: Vec<&'static str>) -> (model: Model)
        ensures
            model@ == (ModelView {
                symbols: Seq::empty(),
                constraints: Seq::empty(),
                clauses: Seq::empty(),
                dominance: None,
                rule_sets: rule_sets@,
            }),
    {
        let model = Model {
            symbols: Vec::new(),
            constraints: Vec::new(),
            clauses: Vec::new(),
            dominance: None,
            rule_sets,
        };
        assert(model@.symbols =~= Seq::empty());
        assert(model@.constraints =~= Seq::empty());
        assert(model@.clauses =~= Seq::empty());
        model
    }

    /// Declares a name.
    pub fn add_symbol(&mut self, declaration: Declaration)
        ensures
            final(self)@ == (ModelView {
                symbols: old(self)@.symbols.push(declaration@),
                ..old(self)@
            }),
    {
        self.symbols.push(declaration);
        assert(self@.symbols =~= old(self)@.symbols.push(declaration@));
    }

    /// Adds a constraint.
    pub fn add_constraint(&mut self, constraint: Expression)
        ensures
            final(self)@ == (ModelView {
                constraints: old(self)@.constraints.push(constraint@),
                ..old(self)@
            }),
    {
        self.constraints.push(constraint);
        assert(self@.constraints =~= old(self)@.constraints.push(constraint@));
    }

    /// What represents a name, as its first declaration says.
    pub fn representations_for(&self, name: &Name) -> (chains: Option<&Vec<Vec<Representation>>>)
        ensures
            match chains {
                Some(chains) => represented(self@.symbols, name@) == Some(chain_views(chains@)),
                None => represented(self@.symbols, name@) is None,
            },
    {
        let ghost symbols = self@.symbols;
        assert(symbols.skip(0) =~= symbols);
        for i in 0..self.symbols.len()
            invariant
                symbols == self@.symbols,
                declared(symbols, name@) == declared(symbols.skip(i as int), name@),
        {
            assert(symbols.skip(i as int)[0] == self.symbols@[i as int]@);
            assert(symbols.skip(i as int).drop_first() =~= symbols.skip(i + 1));
            if self.symbols[i].name.same(name) {
                return match &self.symbols[i].representations {
                    Some(chains) => Some(chains),
                    None => None,
                };
            }
        }
        None
    }
}

fn clone_clauses(clauses: &Vec<Vec<Expression>>) -> (copy: Vec<Vec<Expression>>)
    ensures
        clause_views(copy@) == clause_views(clauses@),
{
    let mut copy: Vec<Vec<Expression>> = Vec::new();
    for i in 0..clauses.len()
        invariant
            copy@.len() == i,
            forall|k: int|
                0 <= k < i ==> expression_views((#[trigger] copy@[k])@) == expression_views(
                    clauses@[k]@,
                ),
    {
        copy.push(clone_expressions(&clauses[i]));
    }
    assert(clause_views(copy@) =~= clause_views(clauses@));
    copy
}

fn clone_symbols(symbols: &Vec<Declaration>) -> (copy: Vec<Declaration>)
    ensures
        declaration_views(copy@) == declaration_views(symbols@),
{
    let mut copy: Vec<Declaration> = Vec::new();
    for i in 0..symbols.len()
        invariant
            copy@.len() == i,
            forall|k: int| 0 <= k < i ==> (#[trigger] copy@[k])@ == symbols@[k]@,
    {
        copy.push(symbols[i].clone());
    }
    assert(declaration_views(copy@) =~= declaration_views(symbols@));
    copy
}

/// Copies the names of some rule sets.
pub fn clone_rule_sets(rule_sets: &Vec<&'static str>) -> (copy: Vec<&'static str>)
    ensures
        copy@ == rule_sets@,
{
    let mut copy: Vec<&'static str> = Vec::new();
    for i in 0..rule_sets.len()
        invariant
            copy@ == rule_sets@.take(i as int),
    {
        copy.push(rule_sets[i]);
        assert(copy@ =~= rule_sets@.take(i + 1));
    }
    assert(copy@ =~= rule_sets@);
    copy
}

/// Copies an expression that may be missing.
pub fn clone_optional(expression: &Option<Expression>) -> (copy: Option<Expression>)
    ensures
        optional_view(copy) == optional_view(*expression),
{
    match expression {
        Some(expression) => Some(expression.clone()),
        None => None,
    }
}

impl Clone for Model {
    fn clone(&self) -> (copy: Self)
        ensures
            copy@ == self@,
    {
        Model {
            symbols: clone_symbols(&self.symbols),
            constraints: clone_expressions(&self.constraints),
            clauses: clone_clauses(&self.clauses),
            dominance: clone_optional(&self.dominance),
            rule_sets: clone_rule_sets(&self.rule_sets),
        }
    }
}

} // verus!
