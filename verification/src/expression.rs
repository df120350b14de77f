//! Expressions: literals, references, and the operators over them.
use crate::name::{Name, NameView};
use crate::text::same_text;
use vstd::prelude::*;

verus! {

/// A domain without free parameters.
#[derive(Debug, Clone, Copy, PartialEq, Eq, Structural)]
pub enum GroundDomain {
    Bool,
    /// The integers from `lower` to `upper`; without one of them, unbounded on that side.
    Int { lower: Option<i32>, upper: Option<i32> },
    /// Any other domain, known by a number.
    Other(u32),
}

/// The kinds of collection, other than matrices, that a literal can be.
#[derive(Debug, Clone, Copy, PartialEq, Eq, Structural)]
pub enum CollectionKind {
    PlainSet,
    MultiSet,
    Tuple,
}

/// A constant value.
#[derive(Debug, PartialEq, Eq)]
pub enum Literal {
    Int(i32),
    Bool(bool),
    /// The items of a matrix, and its index domain.
    Matrix(Vec<Literal>, GroundDomain),
    Collection(CollectionKind, Vec<Literal>),
}

/// What a [`Literal`] says.
pub enum LiteralView {
    Int(i32),
    Bool(bool),
    Matrix(Seq<LiteralView>, GroundDomain),
    Collection(CollectionKind, Seq<LiteralView>),
}

/// What each of some literals says.
pub open spec fn literal_views(items: Seq<Literal>) -> Seq<LiteralView> {
    Seq::new(items.len(), |i: int| items[i]@)
}

impl Literal {
    pub open spec fn view(&self) -> LiteralView
        decreases self,
    {
        match self {
            Literal::Int(n) => LiteralView::Int(*n),
            Literal::Bool(b) => LiteralView::Bool(*b),
            Literal::Matrix(items, index) => LiteralView::Matrix(
                Seq::new(
                    items@.len(),
                    |i: int| if 0 <= i < items@.len() { items@[i].view() } else { arbitrary() },
                ),
                *index,
            ),
            Literal::Collection(kind, items) => LiteralView::Collection(
                *kind,
                Seq::new(
                    items@.len(),
                    |i: int| if 0 <= i < items@.len() { items@[i].view() } else { arbitrary() },
                ),
            ),
        }
    }

    /// Whether two literals say the same.
    pub fn same(&self, other: &Literal) -> (same: bool)
        ensures
            same == (self@ == other@),
        decreases self,
    {
        proof {
            lemma_literal_view(*self);
            lemma_literal_view(*other);
        }
        match (self, other) {
            (Literal::Int(a), Literal::Int(b)) => *a == *b,
            (Literal::Bool(a), Literal::Bool(b)) => *a == *b,
            (Literal::Matrix(a, i), Literal::Matrix(b, j)) => *i == *j && same_literals(a, b),
            (Literal::Collection(i, a), Literal::Collection(j, b)) => *i == *j && same_literals(
                a,
                b,
            ),
            _ => false,
        }
    }
}

proof fn lemma_literal_view(literal: Literal)
    ensures
        literal matches Literal::Matrix(items, index) ==> literal@ == LiteralView::Matrix(
            literal_views(items@),
            index,
        ),
        literal matches Literal::Collection(kind, items) ==> literal@ == LiteralView::Collection(
            kind,
            literal_views(items@),
        ),
{
    match literal {
        Literal::Matrix(items, _) => {
            assert(literal@->Matrix_0 =~= literal_views(items@));
        },
        Literal::Collection(_, items) => {
            assert(literal@->Collection_1 =~= literal_views(items@));
        },
        _ => {},
    }
}

/// Whether two lists of literals say the same.
fn same_literals(a: &Vec<Literal>, b: &Vec<Literal>) -> (same: bool)
    ensures
        same == (literal_views(a@) == literal_views(b@)),
    decreases a,
{
    if a.len() != b.len() {
        assert(literal_views(a@).len() != literal_views(b@).len());
        return false;
    }
    for i in 0..a.len()
        invariant
            a@.len() == b@.len(),
            forall|k: int| 0 <= k < i ==> (#[trigger] a@[k])@ == b@[k]@,
    {
        assert(decreases_to!(a => a@[i as int]));
        if !a[i].same(&b[i]) {
            assert(literal_views(a@)[i as int] != literal_views(b@)[i as int]);
            return false;
        }
    }
    assert(literal_views(a@) =~= literal_views(b@));
    true
}

fn clone_literals(items: &Vec<Literal>) -> (copies: Vec<Literal>)
    ensures
        literal_views(copies@) == literal_views(items@),
    decreases items,
{
    let mut copies: Vec<Literal> = Vec::new();
    for i in 0..items.len()
        invariant
            copies@.len() == i,
            forall|k: int| 0 <= k < i ==> (#[trigger] copies@[k])@ == items@[k]@,
    {
        assert(decreases_to!(items => items@[i as int]));
        copies.push(items[i].clone());
    }
    assert(literal_views(copies@) =~= literal_views(items@));
    copies
}

impl Clone for Literal {
    fn clone(&self) -> (copy: Self)
        ensures
            copy@ == self@,
        decreases self,
    {
        let copy = match self {
            Literal::Int(n) => Literal::Int(*n),
            Literal::Bool(b) => Literal::Bool(*b),
            Literal::Matrix(items, index) => Literal::Matrix(clone_literals(items), *index),
            Literal::Collection(kind, items) => Literal::Collection(*kind, clone_literals(items)),
        };
        proof {
            lemma_literal_view(*self);
            lemma_literal_view(copy);
        }
        copy
    }
}

/// A use of a declared name, with the domain that the declaration resolves to, where it does.
#[derive(Debug, PartialEq, Eq)]
pub struct Reference {
    pub name: Name,
    pub domain: Option<GroundDomain>,
}

/// What a [`Reference`] says.
pub struct ReferenceView {
    pub name: NameView,
    pub domain: Option<GroundDomain>,
}

impl Reference {
    pub open spec fn view(&self) -> ReferenceView {
        ReferenceView { name: self.name@, domain: self.domain }
    }

    /// A reference to a declaration.
    pub fn new(name: Name, domain: Option<GroundDomain>) -> (reference: Reference)
        ensures
            reference@ == (ReferenceView { name: name@, domain }),
    {
        Reference { name, domain }
    }
}

impl Clone for Reference {
    fn clone(&self) -> (copy: Self)
        ensures
            copy@ == self@,
    {
        Reference { name: self.name.clone(), domain: self.domain }
    }
}

/// The leaves of expressions.
#[derive(Debug, PartialEq, Eq)]
pub enum Atom {
    Literal(Literal),
    Reference(Reference),
}

/// What an [`Atom`] says.
pub enum AtomView {
    Literal(LiteralView),
    Reference(ReferenceView),
}

impl Atom {
    pub open spec fn view(&self) -> AtomView {
        match self {
            Atom::Literal(literal) => AtomView::Literal(literal@),
            Atom::Reference(reference) => AtomView::Reference(reference@),
        }
    }

    /// Whether two atoms say the same.
    pub fn same(&self, other: &Atom) -> (same: bool)
        ensures
            same == (self@ == other@),
    {
        match (self, other) {
            (Atom::Literal(a), Atom::Literal(b)) => a.same(b),
            (Atom::Reference(a), Atom::Reference(b)) => a.name.same(&b.name) && same_domain(
                &a.domain,
                &b.domain,
            ),
            _ => false,
        }
    }
}

fn same_domain(a: &Option<GroundDomain>, b: &Option<GroundDomain>) -> (same: bool)
    ensures
        same == (a == b),
{
    match (a, b) {
        (Some(a), Some(b)) => *a == *b,
        (None, None) => true,
        _ => false,
    }
}

impl Clone for Atom {
    fn clone(&self) -> (copy: Self)
        ensures
            copy@ == self@,
    {
        match self {
            Atom::Literal(literal) => Atom::Literal(literal.clone()),
            Atom::Reference(reference) => Atom::Reference(reference.clone()),
        }
    }
}

/// An expression of a model.
#[derive(Debug, PartialEq, Eq)]
pub enum Expression {
    Atomic(Atom),
    /// The value that an atom had in a solution found before.
    FromSolution(Atom),
    /// The items of a matrix, and its index domain.
    Matrix(Vec<Expression>, GroundDomain),
    Not(Box<Expression>),
    /// The conjunction of the items of a matrix.
    And(Box<Expression>),
    /// The disjunction of the items of a matrix.
    Or(Box<Expression>),
    Imply(Box<Expression>, Box<Expression>),
    /// The relation by which one solution dominates another.
    DominanceRelation(Box<Expression>),
    /// Any other operator, with its operands.
    Operation(&'static str, Vec<Expression>),
}

/// What stands at the root of an expression.
pub enum Head {
    Atomic(AtomView),
    FromSolution(AtomView),
    Matrix(GroundDomain),
    Not,
    And,
    Or,
    Imply,
    DominanceRelation,
    Operation(Seq<char>),
}

/// What an [`Expression`] says: what stands at its root, and the operands in their order.
pub struct ExpressionView {
    pub head: Head,
    pub operands: Seq<ExpressionView>,
}

/// What each of some expressions says.
pub open spec fn expression_views(items: Seq<Expression>) -> Seq<ExpressionView> {
    Seq::new(items.len(), |i: int| items[i]@)
}

/// What an expression says that may be missing.
pub open spec fn optional_view(expression: Option<Expression>) -> Option<ExpressionView> {
    match expression {
        Some(expression) => Some(expression@),
        None => None,
    }
}

/// An expression without operands.
pub open spec fn leaf(head: Head) -> ExpressionView {
    ExpressionView { head, operands: Seq::empty() }
}

/// An expression with one operand.
pub open spec fn unary(head: Head, operand: ExpressionView) -> ExpressionView {
    ExpressionView { head, operands: seq![operand] }
}

/// The expression that is a literal.
pub open spec fn constant(literal: LiteralView) -> ExpressionView {
    leaf(Head::Atomic(AtomView::Literal(literal)))
}

/// The expressions that are literals.
pub open spec fn constants(literals: Seq<LiteralView>) -> Seq<ExpressionView> {
    Seq::new(literals.len(), |i: int| constant(literals[i]))
}

/// The expression that is a Boolean literal.
pub open spec fn truth(value: bool) -> ExpressionView {
    constant(LiteralView::Bool(value))
}

/// The negation of an expression.
pub open spec fn negated(expression: ExpressionView) -> ExpressionView {
    unary(Head::Not, expression)
}

/// The index domain of a list: the integers from 1 on.
pub open spec fn list_index() -> GroundDomain {
    GroundDomain::Int { lower: Some(1), upper: None }
}

/// The matrix that lists some expressions.
pub open spec fn list(items: Seq<ExpressionView>) -> ExpressionView {
    ExpressionView { head: Head::Matrix(list_index()), operands: items }
}

/// The items of an expression that is a matrix, be it one of expressions or one of literals, and
/// its index domain.
pub open spec fn matrix_parts(expression: ExpressionView) -> Option<
    (Seq<ExpressionView>, GroundDomain),
> {
    match expression.head {
        Head::Matrix(index) => Some((expression.operands, index)),
        Head::Atomic(AtomView::Literal(LiteralView::Matrix(items, index))) => Some(
            (constants(items), index),
        ),
        _ => None,
    }
}

impl Expression {
    pub open spec fn view(&self) -> ExpressionView
        decreases self,
    {
        match self {
            Expression::Atomic(atom) => leaf(Head::Atomic(atom@)),
            Expression::FromSolution(atom) => leaf(Head::FromSolution(atom@)),
            Expression::Matrix(items, index) => ExpressionView {
                head: Head::Matrix(*index),
                operands: Seq::new(
                    items@.len(),
                    |i: int| if 0 <= i < items@.len() { items@[i].view() } else { arbitrary() },
                ),
            },
            Expression::Not(x) => unary(Head::Not, x.view()),
            Expression::And(x) => unary(Head::And, x.view()),
            Expression::Or(x) => unary(Head::Or, x.view()),
            Expression::Imply(x, y) => ExpressionView {
                head: Head::Imply,
                operands: seq![x.view(), y.view()],
            },
            Expression::DominanceRelation(x) => unary(Head::DominanceRelation, x.view()),
            Expression::Operation(operator, operands) => ExpressionView {
                head: Head::Operation(operator@),
                operands: Seq::new(
                    operands@.len(),
                    |i: int|
                        if 0 <= i < operands@.len() { operands@[i].view() } else { arbitrary() },
                ),
            },
        }
    }

    /// The expression that is a literal.
    pub fn literal(literal: Literal) -> (expression: Expression)
        ensures
            expression@ == constant(literal@),
    {
        Expression::Atomic(Atom::Literal(literal))
    }

    /// The matrix that lists some expressions.
    pub fn list(items: Vec<Expression>) -> (expression: Expression)
        ensures
            expression@ == list(expression_views(items@)),
    {
        let expression = Expression::Matrix(
            items,
            GroundDomain::Int { lower: Some(1), upper: None },
        );
        proof {
            lemma_expression_view(expression);
        }
        expression
    }

    /// The items of an expression that is a matrix, and its index domain. Nothing is asked of
    /// the index domain.
    pub fn unwrap_matrix_unchecked(&self) -> (parts: Option<(Vec<Expression>, GroundDomain)>)
        ensures
            match parts {
                Some((items, index)) => matrix_parts(self@) == Some(
                    (expression_views(items@), index),
                ),
                None => matrix_parts(self@) is None,
            },
    {
        proof {
            lemma_expression_view(*self);
        }
        match self {
            Expression::Matrix(items, index) => Some((clone_expressions(items), *index)),
            Expression::Atomic(Atom::Literal(Literal::Matrix(items, index))) => {
                let mut expressions: Vec<Expression> = Vec::new();
                for i in 0..items.len()
                    invariant
                        expressions@.len() == i,
                        forall|k: int|
                            0 <= k < i ==> (#[trigger] expressions@[k])@ == constant(items@[k]@),
                {
                    expressions.push(Expression::literal(items[i].clone()));
                }
                assert(expression_views(expressions@) =~= matrix_parts(self@).unwrap().0);
                Some((expressions, *index))
            },
            _ => None,
        }
    }

    /// Whether two expressions say the same.
    pub fn same(&self, other: &Expression) -> (same: bool)
        ensures
            same == (self@ == other@),
        decreases self,
    {
        proof {
            lemma_expression_view(*self);
            lemma_expression_view(*other);
        }
        match (self, other) {
            (Expression::Atomic(a), Expression::Atomic(b)) => a.same(b),
            (Expression::FromSolution(a), Expression::FromSolution(b)) => a.same(b),
            (Expression::Matrix(a, i), Expression::Matrix(b, j)) => *i == *j && same_expressions(
                a,
                b,
            ),
            (Expression::Not(a), Expression::Not(b)) => a.same(b),
            (Expression::And(a), Expression::And(b)) => a.same(b),
            (Expression::Or(a), Expression::Or(b)) => a.same(b),
            (Expression::Imply(a, x), Expression::Imply(b, y)) => a.same(b) && x.same(y),
            (Expression::DominanceRelation(a), Expression::DominanceRelation(b)) => a.same(b),
            (Expression::Operation(o, a), Expression::Operation(p, b)) => same_text(o, p)
                && same_expressions(a, b),
            _ => false,
        }
    }
}

/// What an expression says, in terms of what its operands say.
pub proof fn lemma_expression_view(expression: Expression)
    ensures
        match expression {
            Expression::Matrix(items, index) => expression@ == (ExpressionView {
                head: Head::Matrix(index),
                operands: expression_views(items@),
            }),
            Expression::Operation(operator, operands) => expression@ == (ExpressionView {
                head: Head::Operation(operator@),
                operands: expression_views(operands@),
            }),
            Expression::Imply(x, y) => expression@.operands.len() == 2 && expression@.operands[0]
                == x@ && expression@.operands[1] == y@,
            Expression::Not(x) => expression@.operands.len() == 1 && expression@.operands[0] == x@,
            Expression::And(x) => expression@.operands.len() == 1 && expression@.operands[0] == x@,
            Expression::Or(x) => expression@.operands.len() == 1 && expression@.operands[0] == x@,
            Expression::DominanceRelation(x) => expression@.operands.len() == 1
                && expression@.operands[0] == x@,
            _ => true,
        },
{
    match expression {
        Expression::Matrix(items, _) => {
            assert(expression@.operands =~= expression_views(items@));
        },
        Expression::Operation(_, operands) => {
            assert(expression@.operands =~= expression_views(operands@));
        },
        _ => {},
    }
}

/// Whether two lists of expressions say the same.
fn same_expressions(a: &Vec<Expression>, b: &Vec<Expression>) -> (same: bool)
    ensures
        same == (expression_views(a@) == expression_views(b@)),
    decreases a,
{
    if a.len() != b.len() {
        assert(expression_views(a@).len() != expression_views(b@).len());
        return false;
    }
    for i in 0..a.len()
        invariant
            a@.len() == b@.len(),
            forall|k: int| 0 <= k < i ==> (#[trigger] a@[k])@ == b@[k]@,
    {
        assert(decreases_to!(a => a@[i as int]));
        if !a[i].same(&b[i]) {
            assert(expression_views(a@)[i as int] != expression_views(b@)[i as int]);
            return false;
        }
    }
    assert(expression_views(a@) =~= expression_views(b@));
    true
}

/// Copies a list of expressions.
pub fn clone_expressions(items: &Vec<Expression>) -> (copies: Vec<Expression>)
    ensures
        expression_views(copies@) == expression_views(items@),
    decreases items,
{
    let mut copies: Vec<Expression> = Vec::new();
    for i in 0..items.len()
        invariant
            copies@.len() == i,
            forall|k: int| 0 <= k < i ==> (#[trigger] copies@[k])@ == items@[k]@,
    {
        assert(decreases_to!(items => items@[i as int]));
        copies.push(items[i].clone());
    }
    assert(expression_views(copies@) =~= expression_views(items@));
    copies
}

impl Clone for Expression {
    fn clone(&self) -> (copy: Self)
        ensures
            copy@ == self@,
        decreases self,
    {
        let copy = match self {
            Expression::Atomic(atom) => Expression::Atomic(atom.clone()),
            Expression::FromSolution(atom) => Expression::FromSolution(atom.clone()),
            Expression::Matrix(items, index) => Expression::Matrix(
                clone_expressions(items),
                *index,
            ),
            Expression::Not(x) => Expression::Not(Box::new((**x).clone())),
            Expression::And(x) => Expression::And(Box::new((**x).clone())),
            Expression::Or(x) => Expression::Or(Box::new((**x).clone())),
            Expression::Imply(x, y) => Expression::Imply(
                Box::new((**x).clone()),
                Box::new((**y).clone()),
            ),
            Expression::DominanceRelation(x) => Expression::DominanceRelation(
                Box::new((**x).clone()),
            ),
            Expression::Operation(operator, operands) => Expression::Operation(
                *operator,
                clone_expressions(operands),
            ),
        };
        proof {
            lemma_expression_view(*self);
            lemma_expression_view(copy);
        }
        copy
    }
}

} // verus!
