//! The tiered shape of the syntax tree: terms built from factors.
//!
//! A term chains factors with the operators that bind as tightly as
//! multiplication, so that the grouping of a chain such as `a * b / c` is
//! part of the shape of the tree. Every term stands for one expression, its
//! flat form, and is lowered to exactly what that expression is lowered to.

use vstd::prelude::*;
use vstd::string::*;
use crate::assembly::{lemma_listing_concat, lemma_listing_push, listing, Instruction};
use crate::binary::TermOperation;
use crate::compile::{Compile, Lowered};
use crate::errors::ErrorKind;
use crate::expression::{Expression, ExpressionView};
use crate::scope::Scope;
use crate::unary::UnaryOperator;

verus! {

/// An operand of a term.
#[derive(Debug, PartialEq)]
pub enum Factor {
    /// An integer literal.
    Literal(i32),
    /// The value of a variable.
    Var(String),
    /// A factor under a prefix operator.
    Unary(UnaryOperator, Box<Factor>),
    /// An expression in parentheses.
    Parenthesized(Box<Expression>),
}

/// A factor followed by any number of operations, each of which combines
/// everything to its left with one more factor.
#[derive(Debug, PartialEq)]
pub struct Term {
    pub factor: Factor,
    pub operations: Vec<(TermOperation, Factor)>,
}

/// A factor as a mathematical value.
pub enum FactorView {
    Literal(i32),
    Var(Seq<char>),
    Unary(UnaryOperator, Box<FactorView>),
    Parenthesized(Box<ExpressionView>),
}

/// A term as a mathematical value.
pub struct TermView {
    pub factor: FactorView,
    pub operations: Seq<(TermOperation, FactorView)>,
}

impl FactorView {
    /// The expression that the factor stands for.
    pub open spec fn expression(self) -> ExpressionView
        decreases self,
    {
        match self {
            FactorView::Literal(value) => ExpressionView::Constant(value),
            FactorView::Var(name) => ExpressionView::Var(name),
            FactorView::Unary(operator, operand) => ExpressionView::UnOp(
                operator,
                Box::new(operand.expression()),
            ),
            FactorView::Parenthesized(inner) => *inner,
        }
    }
}

impl FactorView {
    /// The factor under a chain of prefix operators, written in source
    /// order: the first operator of `prefixes` is the outermost.
    pub open spec fn prefixed(self, prefixes: Seq<UnaryOperator>) -> FactorView
        decreases prefixes.len(),
    {
        if prefixes.len() == 0 {
            self
        } else {
            FactorView::Unary(prefixes.first(), Box::new(self.prefixed(prefixes.drop_first())))
        }
    }
}

/// A factor under a chain of prefixes stands for the expression of the
/// factor under the same chain.
pub proof fn lemma_prefixed_factor_is_prefixed_expression(
    operand: FactorView,
    prefixes: Seq<UnaryOperator>,
)
    ensures
        operand.prefixed(prefixes).expression() == operand.expression().prefixed(prefixes),
    decreases prefixes.len(),
{
    if prefixes.len() > 0 {
        lemma_prefixed_factor_is_prefixed_expression(operand, prefixes.drop_first());
    }
}

impl TermView {
    /// The term cut off after its first `count` operations.
    pub open spec fn prefix(self, count: int) -> TermView {
        TermView { factor: self.factor, operations: self.operations.take(count) }
    }

    /// The expression that the term stands for. Operations group to the left:
    /// the last one combines all that precedes it with the last factor.
    pub open spec fn expression(self) -> ExpressionView
        decreases self.operations.len(),
    {
        if self.operations.len() == 0 {
            self.factor.expression()
        } else {
            ExpressionView::BinOp(
                self.operations.last().0.binary(),
                Box::new(self.prefix(self.operations.len() - 1).expression()),
                Box::new(self.operations.last().1.expression()),
            )
        }
    }
}

impl Factor {
    /// The factor as a mathematical value.
    pub open spec fn model(&self) -> FactorView
        decreases self,
    {
        match self {
            Factor::Literal(value) => FactorView::Literal(*value),
            Factor::Var(name) => FactorView::Var(name@),
            Factor::Unary(operator, operand) => FactorView::Unary(
                *operator,
                Box::new(operand.model()),
            ),
            Factor::Parenthesized(inner) => FactorView::Parenthesized(Box::new(inner@)),
        }
    }

    /// The expression that the factor stands for.
    pub fn to_expression(&self) -> (flat: Expression)
        ensures
            flat@ == self@.expression(),
        decreases self,
    {
        match self {
            Factor::Literal(value) => Expression::Constant(*value),
            Factor::Var(name) => Expression::Var(name.clone()),
            Factor::Unary(operator, operand) => Expression::UnOp(
                *operator,
                Box::new(operand.to_expression()),
            ),
            Factor::Parenthesized(inner) => inner.duplicate(),
        }
    }
}

impl View for Factor {
    type V = FactorView;

    open spec fn view(&self) -> FactorView {
        self.model()
    }
}

/// The operations of a term as mathematical values.
pub open spec fn operations_view(operations: Seq<(TermOperation, Factor)>) -> Seq<
    (TermOperation, FactorView),
> {
    operations.map_values(|operation: (TermOperation, Factor)| (operation.0, operation.1@))
}

impl View for Term {
    type V = TermView;

    open spec fn view(&self) -> TermView {
        TermView { factor: self.factor@, operations: operations_view(self.operations@) }
    }
}

impl Term {
    /// The term that is `factor` alone.
    pub fn new(factor: Factor) -> (term: Term)
        ensures
            term@ == (TermView { factor: factor@, operations: Seq::empty() }),
            term@.expression() == factor@.expression(),
    {
        let term = Term { factor, operations: Vec::new() };
        assert(term@.operations =~= Seq::empty());
        term
    }

    /// The expression that the term stands for.
    pub fn to_expression(&self) -> (flat: Expression)
        ensures
            flat@ == self@.expression(),
    {
        let mut flat = self.factor.to_expression();
        let mut done: usize = 0;
        assert(self@.prefix(0).operations =~= Seq::empty());
        while done < self.operations.len()
            invariant
                done <= self.operations@.len(),
                flat@ == self@.prefix(done as int).expression(),
            decreases self.operations@.len() - done,
        {
            proof {
                lemma_prefix_step(self@, done as int);
            }
            let operator = self.operations[done].0.to_binary();
            let operand = self.operations[done].1.to_expression();
            flat = Expression::BinOp(operator, Box::new(flat), Box::new(operand));
            done += 1;
        }
        assert(self@.prefix(done as int).operations =~= self@.operations);
        flat
    }
}

/// One more operation of a term combines the expression of the operations
/// before it with the expression of its own factor.
pub proof fn lemma_prefix_step(term: TermView, count: int)
    requires
        0 <= count < term.operations.len(),
    ensures
        term.prefix(count + 1).expression() == ExpressionView::BinOp(
            term.operations[count].0.binary(),
            Box::new(term.prefix(count).expression()),
            Box::new(term.operations[count].1.expression()),
        ),
{
    let longer = term.prefix(count + 1);
    assert(longer.operations.last() == term.operations[count]);
    assert(longer.prefix(longer.operations.len() - 1).operations =~= term.prefix(
        count,
    ).operations);
}

/// Once the lowering of the first operations of a term has stopped, the
/// lowering of the whole term is what it was at that point.
pub proof fn lemma_term_stops_where_prefix_stops(
    term: TermView,
    count: int,
    names: Seq<Seq<char>>,
)
    requires
        0 <= count <= term.operations.len(),
        !term.prefix(count).expression().lowered(names).complete,
    ensures
        term.expression().lowered(names) == term.prefix(count).expression().lowered(names),
    decreases term.operations.len() - count,
{
    let total = term.operations.len() as int;
    if count == total {
        assert(term.prefix(count).operations =~= term.operations);
    } else {
        lemma_prefix_step(term, count);
        lemma_term_stops_where_prefix_stops(term, count + 1, names);
    }
}

impl Compile for Factor {
    open spec fn lowered(&self, names: Seq<Seq<char>>) -> Lowered {
        self@.expression().lowered(names)
    }

    fn compile(&self, output: &mut Vec<u8>, scope: &mut Scope) -> (res: Result<(), ErrorKind>)
        decreases self,
    {
        let ghost names = scope@;
        let ghost before = output@;
        match self {
            Factor::Literal(value) => {
                Instruction::LoadImmediate(*value).write(output);
                proof {
                    lemma_listing_push(Seq::empty(), Instruction::LoadImmediate(*value));
                }
                Ok(())
            },
            Factor::Var(name) => {
                let index: usize = match scope.get_variable_index(name.as_str()) {
                    Some(index) => index,
                    None => {
                        assert(output@ =~= before + listing(Seq::empty()));
                        return Err(ErrorKind::UnknownVariable);
                    },
                };
                let load = Instruction::LoadVariable(scope.get_size() - index);
                load.write(output);
                proof {
                    lemma_listing_push(Seq::empty(), load);
                }
                Ok(())
            },
            Factor::Unary(operator, operand) => {
                operand.compile(output, scope)?;
                let res = operator.compile(output, scope);
                proof {
                    lemma_listing_concat(
                        operand@.expression().lowered(names).instructions,
                        operator.instructions(),
                    );
                }
                res
            },
            Factor::Parenthesized(inner) => inner.compile(output, scope),
        }
    }
}

impl Compile for Term {
    open spec fn lowered(&self, names: Seq<Seq<char>>) -> Lowered {
        self@.expression().lowered(names)
    }

    fn compile(&self, output: &mut Vec<u8>, scope: &mut Scope) -> (res: Result<(), ErrorKind>) {
        let ghost names = scope@;
        let ghost before = output@;
        assert(self@.prefix(0).operations =~= Seq::empty());
        match self.factor.compile(output, scope) {
            Ok(()) => {},
            Err(error) => {
                proof {
                    lemma_term_stops_where_prefix_stops(self@, 0, names);
                }
                return Err(error);
            },
        }
        let mut done: usize = 0;
        while done < self.operations.len()
            invariant
                done <= self.operations@.len(),
                *scope == *old(scope),
                names == old(scope)@,
                before == old(output)@,
                self@.prefix(done as int).expression().lowered(names).complete,
                output@ == before + listing(
                    self@.prefix(done as int).expression().lowered(names).instructions,
                ),
            decreases self.operations@.len() - done,
        {
            let ghost left = self@.prefix(done as int).expression().lowered(names).instructions;
            let ghost right = self@.operations[done as int].1.expression().lowered(names);
            let ghost operator = self@.operations[done as int].0.binary();
            let ghost staged = left + seq![Instruction::Push];
            let ghost evaluated = staged + right.instructions;
            let ghost unstaged = evaluated + seq![Instruction::Pop];
            proof {
                lemma_prefix_step(self@, done as int);
            }
            Instruction::Push.write(output);
            proof {
                lemma_listing_push(left, Instruction::Push);
                assert(staged =~= left.push(Instruction::Push));
                lemma_listing_concat(staged, right.instructions);
            }
            match self.operations[done].1.compile(output, scope) {
                Ok(()) => {},
                Err(error) => {
                    proof {
                        lemma_term_stops_where_prefix_stops(self@, done + 1, names);
                    }
                    return Err(error);
                },
            }
            Instruction::Pop.write(output);
            proof {
                lemma_listing_push(evaluated, Instruction::Pop);
                assert(unstaged =~= evaluated.push(Instruction::Pop));
                lemma_listing_concat(unstaged, operator.instructions());
            }
            let _ = self.operations[done].0.compile(output, scope);
            done += 1;
        }
        assert(self@.prefix(done as int).operations =~= self@.operations);
        Ok(())
    }
}

} // verus!
