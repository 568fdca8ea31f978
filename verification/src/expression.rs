//! The syntax tree of an expression and its lowering.

use vstd::prelude::*;
use vstd::string::*;
use crate::assembly::{lemma_listing_concat, lemma_listing_push, listing, Instruction};
use crate::binary::{
    divisions_are_guarded, lemma_guarded_concat, lemma_only_division_uses_extension,
    spares_extension, BinaryOperator,
};
use crate::compile::{Compile, Lowered};
use crate::errors::ErrorKind;
use crate::scope::{declared, distance, Scope};
use crate::unary::UnaryOperator;

verus! {

/// An expression.
#[derive(Debug, PartialEq)]
pub enum Expression {
    /// Gives the variable the value of the expression. The variable must be
    /// declared before the assignment is lowered.
    Assign(String, Box<Expression>),
    /// The value of a variable.
    Var(String),
    /// An integer literal.
    Constant(i32),
    /// A unary operator applied to the value of an expression.
    UnOp(UnaryOperator, Box<Expression>),
    /// A binary operator applied to the values of two expressions, of which
    /// the left one is evaluated first.
    BinOp(BinaryOperator, Box<Expression>, Box<Expression>),
}

/// An expression as a mathematical value: the tree of [`Expression`], with
/// each name as a sequence of characters.
pub enum ExpressionView {
    Assign(Seq<char>, Box<ExpressionView>),
    Var(Seq<char>),
    Constant(i32),
    UnOp(UnaryOperator, Box<ExpressionView>),
    BinOp(BinaryOperator, Box<ExpressionView>, Box<ExpressionView>),
}

impl ExpressionView {
    /// What lowering this expression emits when the variables in `names` are
    /// declared.
    ///
    /// A binary operation stages the value of its left operand on the stack
    /// while the right operand is evaluated, and takes it back into the
    /// scratch register before the operator's own instructions.
    pub open spec fn lowered(self, names: Seq<Seq<char>>) -> Lowered
        decreases self,
    {
        match self {
            ExpressionView::Assign(name, value) => if names.contains(name) {
                value.lowered(names).followed_by(
                    Lowered::emits(seq![Instruction::StoreVariable(distance(names, name) as usize)]),
                )
            } else {
                Lowered::stops()
            },
            ExpressionView::Var(name) => if names.contains(name) {
                Lowered::emits(seq![Instruction::LoadVariable(distance(names, name) as usize)])
            } else {
                Lowered::stops()
            },
            ExpressionView::Constant(value) => Lowered::emits(
                seq![Instruction::LoadImmediate(value)],
            ),
            ExpressionView::UnOp(operator, operand) => operand.lowered(names).followed_by(
                Lowered::emits(operator.instructions()),
            ),
            ExpressionView::BinOp(operator, left, right) => left.lowered(names).followed_by(
                Lowered::emits(seq![Instruction::Push]),
            ).followed_by(right.lowered(names)).followed_by(
                Lowered::emits(seq![Instruction::Pop]),
            ).followed_by(Lowered::emits(operator.instructions())),
        }
    }

    /// The names that are declared once the targets of the assignments in this
    /// expression have been declared, in the order of the source, on top of
    /// `names`.
    pub open spec fn declaring(self, names: Seq<Seq<char>>) -> Seq<Seq<char>>
        decreases self,
    {
        match self {
            ExpressionView::Assign(name, value) => value.declaring(declared(names, name)),
            ExpressionView::Var(_) => names,
            ExpressionView::Constant(_) => names,
            ExpressionView::UnOp(_, operand) => operand.declaring(names),
            ExpressionView::BinOp(_, left, right) => right.declaring(left.declaring(names)),
        }
    }

    /// The expression under a chain of prefix operators, written in source
    /// order: the first operator of `prefixes` is the outermost.
    pub open spec fn prefixed(self, prefixes: Seq<UnaryOperator>) -> ExpressionView
        decreases prefixes.len(),
    {
        if prefixes.len() == 0 {
            self
        } else {
            ExpressionView::UnOp(prefixes.first(), Box::new(self.prefixed(prefixes.drop_first())))
        }
    }
}

/// The instructions of a chain of prefix operators, in the order in which
/// they are applied: those of the last prefix first.
pub open spec fn prefix_instructions(prefixes: Seq<UnaryOperator>) -> Seq<Instruction>
    decreases prefixes.len(),
{
    if prefixes.len() == 0 {
        Seq::empty()
    } else {
        prefix_instructions(prefixes.drop_first()) + prefixes.first().instructions()
    }
}

impl Expression {
    /// The tree as a mathematical value.
    pub open spec fn model(&self) -> ExpressionView
        decreases self,
    {
        match self {
            Expression::Assign(name, value) => ExpressionView::Assign(
                name@,
                Box::new(value.model()),
            ),
            Expression::Var(name) => ExpressionView::Var(name@),
            Expression::Constant(value) => ExpressionView::Constant(*value),
            Expression::UnOp(operator, operand) => ExpressionView::UnOp(
                *operator,
                Box::new(operand.model()),
            ),
            Expression::BinOp(operator, left, right) => ExpressionView::BinOp(
                *operator,
                Box::new(left.model()),
                Box::new(right.model()),
            ),
        }
    }

    /// Declares in `scope` the target of every assignment in the expression,
    /// in the order of the source. Lowering declares nothing: an assignment
    /// can only be lowered once its target has a slot.
    pub fn declare_targets(&self, scope: &mut Scope)
        ensures
            final(scope)@ == self@.declaring(old(scope)@),
        decreases self,
    {
        match self {
            Expression::Assign(name, value) => {
                scope.declare_or_reuse(name.as_str());
                value.declare_targets(scope);
            },
            Expression::Var(_) => {},
            Expression::Constant(_) => {},
            Expression::UnOp(_, operand) => operand.declare_targets(scope),
            Expression::BinOp(_, left, right) => {
                left.declare_targets(scope);
                right.declare_targets(scope);
            },
        }
    }

    /// A copy of the tree.
    pub fn duplicate(&self) -> (copy: Expression)
        ensures
            copy@ == self@,
        decreases self,
    {
        match self {
            Expression::Assign(name, value) => Expression::Assign(
                name.clone(),
                Box::new(value.duplicate()),
            ),
            Expression::Var(name) => Expression::Var(name.clone()),
            Expression::Constant(value) => Expression::Constant(*value),
            Expression::UnOp(operator, operand) => Expression::UnOp(
                *operator,
                Box::new(operand.duplicate()),
            ),
            Expression::BinOp(operator, left, right) => Expression::BinOp(
                *operator,
                Box::new(left.duplicate()),
                Box::new(right.duplicate()),
            ),
        }
    }
}

impl View for Expression {
    type V = ExpressionView;

    open spec fn view(&self) -> ExpressionView {
        self.model()
    }
}

impl Clone for Expression {
    fn clone(&self) -> (copy: Expression)
        ensures
            copy@ == self@,
    {
        self.duplicate()
    }
}

impl Compile for Expression {
    open spec fn lowered(&self, names: Seq<Seq<char>>) -> Lowered {
        self@.lowered(names)
    }

    fn compile(&self, output: &mut Vec<u8>, scope: &mut Scope) -> (res: Result<(), ErrorKind>)
        decreases self,
    {
        let ghost names = scope@;
        let ghost before = output@;
        match self {
            Expression::Assign(name, value) => {
                let index: usize = match scope.get_variable_index(name.as_str()) {
                    Some(index) => index,
                    None => {
                        assert(output@ =~= before + listing(Seq::empty()));
                        return Err(ErrorKind::UnknownVariable);
                    },
                };
                value.compile(output, scope)?;
                let store = Instruction::StoreVariable(scope.get_size() - index);
                store.write(output);
                proof {
                    let stored = value@.lowered(names).instructions;
                    lemma_listing_push(stored, store);
                    assert(stored + seq![store] =~= stored.push(store));
                }
                Ok(())
            },
            Expression::Var(name) => {
                let index: usize = match scope.get_variable_index(name.as_str()) {
                    Some(index) => index,
                    None => {
                        assert(output@ =~= before + listing(Seq::empty()));
                        return Err(ErrorKind::UnknownVariable);
                    },
                };
                let load = Instruction::LoadVariable(scope.get_size() - index);
                load.write(output);
                proof {
                    lemma_listing_push(Seq::empty(), load);
                }
                Ok(())
            },
            Expression::Constant(value) => {
                Instruction::LoadImmediate(*value).write(output);
                proof {
                    lemma_listing_push(Seq::empty(), Instruction::LoadImmediate(*value));
                }
                Ok(())
            },
            Expression::UnOp(operator, operand) => {
                operand.compile(output, scope)?;
                let res = operator.compile(output, scope);
                proof {
                    lemma_listing_concat(operand@.lowered(names).instructions, operator.instructions());
                }
                res
            },
            Expression::BinOp(operator, left, right) => {
                let ghost staged = left@.lowered(names).instructions + seq![Instruction::Push];
                let ghost evaluated = staged + right@.lowered(names).instructions;
                let ghost unstaged = evaluated + seq![Instruction::Pop];
                left.compile(output, scope)?;
                Instruction::Push.write(output);
                proof {
                    lemma_listing_push(left@.lowered(names).instructions, Instruction::Push);
                    assert(staged =~= left@.lowered(names).instructions.push(Instruction::Push));
                }
                proof {
                    lemma_listing_concat(staged, right@.lowered(names).instructions);
                }
                right.compile(output, scope)?;
                Instruction::Pop.write(output);
                proof {
                    lemma_listing_push(evaluated, Instruction::Pop);
                    assert(unstaged =~= evaluated.push(Instruction::Pop));
                }
                let res = operator.compile(output, scope);
                proof {
                    lemma_listing_concat(unstaged, operator.instructions());
                }
                res
            },
        }
    }
}

/// A literal is lowered to exactly one instruction, which loads it into the
/// accumulator. This cannot fail.
pub proof fn lemma_constant_is_one_load(value: i32, names: Seq<Seq<char>>)
    ensures
        ExpressionView::Constant(value).lowered(names) == Lowered::emits(
            seq![Instruction::LoadImmediate(value)],
        ),
{
}

/// Reading a variable that has no slot fails, and emits nothing.
pub proof fn lemma_unknown_variable_stops(name: Seq<char>, names: Seq<Seq<char>>)
    requires
        !names.contains(name),
    ensures
        ExpressionView::Var(name).lowered(names) == Lowered::stops(),
        ExpressionView::Var(name).lowered(Seq::empty()) == Lowered::stops(),
{
    assert(!Seq::<Seq<char>>::empty().contains(name));
}

/// A chain of prefix operators is lowered to the operand followed by the
/// instructions of each operator, from the one next to the operand to the
/// leftmost: the leftmost prefix is applied last.
pub proof fn lemma_prefixes_apply_inside_out(
    operand: ExpressionView,
    prefixes: Seq<UnaryOperator>,
    names: Seq<Seq<char>>,
)
    ensures
        operand.prefixed(prefixes).lowered(names) == operand.lowered(names).followed_by(
            Lowered::emits(prefix_instructions(prefixes)),
        ),
    decreases prefixes.len(),
{
    let inner = operand.lowered(names);
    if prefixes.len() == 0 {
        assert(inner.instructions + Seq::<Instruction>::empty() =~= inner.instructions);
    } else {
        let rest = prefixes.drop_first();
        lemma_prefixes_apply_inside_out(operand, rest, names);
        assert((inner.instructions + prefix_instructions(rest)) + prefixes.first().instructions()
            =~= inner.instructions + prefix_instructions(prefixes));
    }
}

/// An assignment to a declared variable and a later read of it address the
/// same place in the frame: the assignment ends with a store to it, and the
/// read is one load from it.
pub proof fn lemma_store_and_load_agree(
    name: Seq<char>,
    value: ExpressionView,
    names: Seq<Seq<char>>,
)
    requires
        names.contains(name),
        value.lowered(names).complete,
    ensures
        ExpressionView::Assign(name, Box::new(value)).lowered(names) == Lowered::emits(
            value.lowered(names).instructions.push(
                Instruction::StoreVariable(distance(names, name) as usize),
            ),
        ),
        ExpressionView::Var(name).lowered(names) == Lowered::emits(
            seq![Instruction::LoadVariable(distance(names, name) as usize)],
        ),
        1 <= distance(names, name) <= names.len(),
{
    let stored = value.lowered(names).instructions;
    let store = Instruction::StoreVariable(distance(names, name) as usize);
    assert(stored + seq![store] =~= stored.push(store));
    let slot = names.index_of(name);
    assert(0 <= slot < names.len() && names[slot] == name);
}

/// One lowering after another keeps divisions guarded.
proof fn lemma_guarded_followed_by(first: Lowered, next: Lowered)
    requires
        divisions_are_guarded(first.instructions),
        divisions_are_guarded(next.instructions),
    ensures
        divisions_are_guarded(first.followed_by(next).instructions),
{
    lemma_guarded_concat(first.instructions, next.instructions);
}

/// Whatever the expression, and whether or not its lowering runs to the
/// end, every division that lowering emits comes directly after the
/// instruction that clears the extension register.
pub proof fn lemma_divisions_are_guarded(expression: ExpressionView, names: Seq<Seq<char>>)
    ensures
        divisions_are_guarded(expression.lowered(names).instructions),
    decreases expression,
{
    match expression {
        ExpressionView::Assign(name, value) => {
            lemma_divisions_are_guarded(*value, names);
            let store = Lowered::emits(
                seq![Instruction::StoreVariable(distance(names, name) as usize)],
            );
            lemma_guarded_followed_by(value.lowered(names), store);
        },
        ExpressionView::Var(_) => {},
        ExpressionView::Constant(_) => {},
        ExpressionView::UnOp(operator, operand) => {
            lemma_divisions_are_guarded(*operand, names);
            lemma_guarded_followed_by(operand.lowered(names), Lowered::emits(operator.instructions()));
        },
        ExpressionView::BinOp(operator, left, right) => {
            lemma_divisions_are_guarded(*left, names);
            lemma_divisions_are_guarded(*right, names);
            lemma_only_division_uses_extension(operator);
            let staged = left.lowered(names).followed_by(Lowered::emits(seq![Instruction::Push]));
            lemma_guarded_followed_by(left.lowered(names), Lowered::emits(seq![Instruction::Push]));
            let evaluated = staged.followed_by(right.lowered(names));
            lemma_guarded_followed_by(staged, right.lowered(names));
            let unstaged = evaluated.followed_by(Lowered::emits(seq![Instruction::Pop]));
            lemma_guarded_followed_by(evaluated, Lowered::emits(seq![Instruction::Pop]));
            lemma_guarded_followed_by(unstaged, Lowered::emits(operator.instructions()));
        },
    }
}

/// An operation other than a division adds no use of the extension register
/// to those of its operands: if the operands spare the register, so does
/// the operation. This holds of multiplication in particular.
pub proof fn lemma_only_division_adds_extension(
    operator: BinaryOperator,
    left: ExpressionView,
    right: ExpressionView,
    names: Seq<Seq<char>>,
)
    requires
        operator != BinaryOperator::Division,
        spares_extension(left.lowered(names).instructions),
        spares_extension(right.lowered(names).instructions),
    ensures
        spares_extension(
            ExpressionView::BinOp(operator, Box::new(left), Box::new(right)).lowered(
                names,
            ).instructions,
        ),
{
    lemma_only_division_uses_extension(operator);
    let first = left.lowered(names).instructions;
    let second = right.lowered(names).instructions;
    let whole = ExpressionView::BinOp(operator, Box::new(left), Box::new(right)).lowered(
        names,
    ).instructions;
    let staged = first + seq![Instruction::Push];
    let evaluated = staged + second;
    let unstaged = evaluated + seq![Instruction::Pop];
    let finished = unstaged + operator.instructions();
    assert(spares_extension(staged));
    assert(spares_extension(evaluated));
    assert(spares_extension(unstaged));
    assert(spares_extension(finished));
    assert(whole == first || whole == evaluated || whole == finished);
}

} // verus!
