use vstd::prelude::*;
use crate::error::Error;
use crate::lexer::ignored;
use crate::lexer::tokens_of;
use crate::numeric::Numeric;
use crate::shunting_yard::postfix_of;
use crate::symexpr::BinaryFunction;
use crate::symexpr::Expr;
use crate::token::OperatorType;
use crate::token::Term;
use crate::token::Token;

verus! {

/// The first place at which `name` stands in `names`.
pub open spec fn position(names: Seq<Seq<char>>, name: Seq<char>) -> Option<int>
    decreases names.len(),
{
    if names.len() == 0 {
        None
    } else {
        match position(names.drop_last(), name) {
            Some(index) => Some(index),
            None => if names.last() == name {
                Some(names.len() - 1)
            } else {
                None
            },
        }
    }
}

/// Whether no name stands twice in `names`.
pub open spec fn distinct(names: Seq<Seq<char>>) -> bool {
    forall|i: int, j: int| 0 <= i < j < names.len() ==> names[i] != names[j]
}

/// Whether `tokens` starts with a variable and the assignment operator.
pub open spec fn assigns(tokens: Seq<Token>) -> bool {
    tokens.len() >= 2 && tokens[0] is Term && tokens[0]->Term_0 is Variable
        && tokens[1].operator(OperatorType::Assign)
}

/// The name under which a line without an assignment is kept.
pub open spec fn answer() -> Seq<char> {
    "ans"@
}

/// What an engine holds: two tables, each a list of names and, at the
/// same places, what the names are bound to; and the characters that the
/// last line held without their being understood.
pub struct Bindings {
    pub variable_names: Seq<Seq<char>>,
    pub variable_values: Seq<Numeric>,
    pub expression_names: Seq<Seq<char>>,
    pub expressions: Seq<Expr>,
    pub ignored: Seq<char>,
}

impl Bindings {
    /// Nothing bound, nothing passed over.
    pub open spec fn empty() -> Bindings {
        Bindings {
            variable_names: Seq::empty(),
            variable_values: Seq::empty(),
            expression_names: Seq::empty(),
            expressions: Seq::empty(),
            ignored: Seq::empty(),
        }
    }

    /// Each table has as many names as entries, and no name twice.
    pub open spec fn well_formed(self) -> bool {
        &&& self.variable_names.len() == self.variable_values.len()
        &&& self.expression_names.len() == self.expressions.len()
        &&& distinct(self.variable_names)
        &&& distinct(self.expression_names)
    }

    /// Whether every tree that is kept refers only to slots of variables
    /// that are bound.
    pub open spec fn closed(self) -> bool {
        forall|index: int|
            0 <= index < self.expressions.len() ==> (#[trigger] self.expressions[index]).within(
                self.variable_values.len() as int,
            )
    }

    /// Whether `later` holds every name of `self` at the place that it has
    /// in `self`.
    pub open spec fn kept_by(self, later: Bindings) -> bool {
        self.variable_names.is_prefix_of(later.variable_names)
            && self.expression_names.is_prefix_of(later.expression_names)
    }

    /// The value that the variable `name` is bound to.
    pub open spec fn variable(self, name: Seq<char>) -> Option<Numeric> {
        match position(self.variable_names, name) {
            Some(index) => Some(self.variable_values[index]),
            None => None,
        }
    }

    /// The tree that the expression `name` is bound to.
    pub open spec fn expression(self, name: Seq<char>) -> Option<Expr> {
        match position(self.expression_names, name) {
            Some(index) => Some(self.expressions[index]),
            None => None,
        }
    }

    /// Where the variable `name` stands once it has been assigned: its
    /// place, or the end of the table for a new name.
    pub open spec fn variable_slot(self, name: Seq<char>) -> int {
        match position(self.variable_names, name) {
            Some(index) => index,
            None => self.variable_names.len() as int,
        }
    }

    /// Where the expression `name` stands once it has been assigned.
    pub open spec fn expression_slot(self, name: Seq<char>) -> int {
        match position(self.expression_names, name) {
            Some(index) => index,
            None => self.expression_names.len() as int,
        }
    }

    /// The tables after `value` has been assigned to the variable `name`:
    /// written over the old value of a known name, added at the end for a
    /// new one.
    pub open spec fn with_variable(self, name: Seq<char>, value: Numeric) -> Bindings {
        match position(self.variable_names, name) {
            Some(index) => Bindings {
                variable_values: self.variable_values.update(index, value),
                ..self
            },
            None => Bindings {
                variable_names: self.variable_names.push(name),
                variable_values: self.variable_values.push(value),
                ..self
            },
        }
    }

    /// The tables after `tree` has been assigned to the expression `name`.
    pub open spec fn with_expression(self, name: Seq<char>, tree: Expr) -> Bindings {
        match position(self.expression_names, name) {
            Some(index) => Bindings { expressions: self.expressions.update(index, tree), ..self },
            None => Bindings {
                expression_names: self.expression_names.push(name),
                expressions: self.expressions.push(tree),
                ..self
            },
        }
    }

    /// The tables once the variable `name` is known: as they are for a
    /// known name, with `name` bound to zero for a new one.
    pub open spec fn resolved(self, name: Seq<char>) -> Bindings {
        if position(self.variable_names, name) is Some {
            self
        } else {
            self.with_variable(name, Numeric::Integer(0))
        }
    }

    /// The value of the expression `name` over the variables as they are
    /// bound now.
    pub open spec fn evaluated(self, name: Seq<char>) -> Option<Result<Numeric, Error>> {
        match self.expression(name) {
            Some(tree) => Some(tree.value(self.variable_values)),
            None => None,
        }
    }

    /// The tables and the stack of trees after one token of a postfix
    /// sequence. A number is pushed as a literal leaf. A variable is
    /// resolved and pushed as a variable leaf for its slot. `+` and `*`
    /// take the top of the stack as right operand and the entry below as
    /// left operand, and push their node; they fail with `MissingOperand`
    /// on a stack of fewer than two. Any other operator is passed over.
    pub open spec fn pushed(self, stack: Seq<Expr>, token: Token) -> (
        Bindings,
        Result<Seq<Expr>, Error>,
    ) {
        match token {
            Token::Term(Term::Number(number)) => (self, Ok(stack.push(Expr::Numeric(number)))),
            Token::Term(Term::Variable(letter)) => (
                self.resolved(seq![letter]),
                Ok(stack.push(Expr::IndepVar(self.variable_slot(seq![letter]) as usize))),
            ),
            Token::Operator(operator) => if operator.operator_type == OperatorType::Add
                || operator.operator_type == OperatorType::Mul {
                if stack.len() < 2 {
                    (self, Err(Error::MissingOperand))
                } else {
                    (
                        self,
                        Ok(
                            stack.take(stack.len() - 2).push(
                                Expr::binary(
                                    if operator.operator_type == OperatorType::Add {
                                        BinaryFunction::Add
                                    } else {
                                        BinaryFunction::Mul
                                    },
                                    stack[stack.len() - 2],
                                    stack[stack.len() - 1],
                                ),
                            ),
                        ),
                    )
                }
            } else {
                (self, Ok(stack))
            },
        }
    }

    /// The tables and the stack of trees after the postfix sequence
    /// `postfix`, from an empty stack. The first failure ends the run.
    pub open spec fn stacked(self, postfix: Seq<Token>) -> (Bindings, Result<Seq<Expr>, Error>)
        decreases postfix.len(),
    {
        if postfix.len() == 0 {
            (self, Ok(Seq::empty()))
        } else {
            let (bindings, stack) = self.stacked(postfix.drop_last());
            match stack {
                Ok(stack) => bindings.pushed(stack, postfix.last()),
                Err(error) => (bindings, Err(error)),
            }
        }
    }

    /// The tables after the postfix sequence `postfix` has been built into
    /// a tree, and the tree: the entry at the bottom of the stack.
    /// `MissingOperand` where the stack is left empty.
    pub open spec fn built(self, postfix: Seq<Token>) -> (Bindings, Result<Expr, Error>) {
        let (bindings, stack) = self.stacked(postfix);
        match stack {
            Ok(stack) => if stack.len() == 0 {
                (bindings, Err(Error::MissingOperand))
            } else {
                (bindings, Ok(stack[0]))
            },
            Err(error) => (bindings, Err(error)),
        }
    }

    /// The tables after the line `text`, and the name that the line was
    /// kept under.
    ///
    /// The line is read as tokens. Where it starts with a variable and
    /// `=`, that variable is the target and the tokens behind `=` are the
    /// right-hand side; else the target is `ans` and the whole line is the
    /// right-hand side. The right-hand side is brought into postfix order
    /// and built into a tree. A tree without a variable that is assigned
    /// is evaluated at once: its value is bound to the target as a
    /// variable, and as an expression in the shape of a literal. Any other
    /// tree is bound to the target as an expression.
    pub open spec fn processed(self, text: Seq<char>) -> (Bindings, Result<Seq<char>, Error>) {
        let noted = Bindings { ignored: ignored(text), ..self };
        match tokens_of(text) {
            Err(error) => (noted, Err(error)),
            Ok(tokens) => {
                let target = if assigns(tokens) {
                    seq![tokens[0]->Term_0->Variable_0]
                } else {
                    answer()
                };
                let rhs = if assigns(tokens) {
                    tokens.skip(2)
                } else {
                    tokens
                };
                match postfix_of(rhs) {
                    Err(error) => (noted, Err(error)),
                    Ok(postfix) => {
                        let (grown, tree) = noted.built(postfix);
                        match tree {
                            Err(error) => (grown, Err(error)),
                            Ok(tree) => if assigns(tokens) && !tree.has_variable() {
                                match tree.value(grown.variable_values) {
                                    Err(error) => (grown, Err(error)),
                                    Ok(value) => (
                                        grown.with_variable(target, value).with_expression(
                                            target,
                                            Expr::Numeric(value),
                                        ),
                                        Ok(target),
                                    ),
                                }
                            } else {
                                (grown.with_expression(target, tree), Ok(target))
                            },
                        }
                    },
                }
            },
        }
    }

    /// What `interpret` returns for the line `text`: the value of the
    /// expression that the line was kept under.
    pub open spec fn interpreted(self, text: Seq<char>) -> Result<Numeric, Error> {
        let (bindings, name) = self.processed(text);
        match name {
            Ok(name) => bindings.expressions[bindings.expression_slot(name)].value(
                bindings.variable_values,
            ),
            Err(error) => Err(error),
        }
    }
}

/// The place that `position` gives holds the name, and no earlier one does;
/// it gives none only where the name stands nowhere.
pub proof fn lemma_position(names: Seq<Seq<char>>, name: Seq<char>)
    ensures
        match position(names, name) {
            Some(index) => 0 <= index < names.len() && names[index] == name && forall|k: int|
                0 <= k < index ==> names[k] != name,
            None => forall|k: int| 0 <= k < names.len() ==> names[k] != name,
        },
    decreases names.len(),
{
    if names.len() > 0 {
        lemma_position(names.drop_last(), name);
        assert forall|k: int| 0 <= k < names.len() - 1 implies names[k] == names.drop_last()[k] by {}
    }
}

/// A name that stands at `index`, and nowhere before, has that position.
pub proof fn lemma_position_found(names: Seq<Seq<char>>, name: Seq<char>, index: int)
    requires
        0 <= index < names.len(),
        names[index] == name,
        forall|k: int| 0 <= k < index ==> names[k] != name,
    ensures
        position(names, name) == Some(index),
{
    lemma_position(names, name);
}

/// An assignment binds its variable and leaves every other variable, and
/// every expression, as it is.
pub proof fn lemma_with_variable(bindings: Bindings, name: Seq<char>, value: Numeric, other: Seq<char>)
    requires
        bindings.well_formed(),
    ensures
        bindings.with_variable(name, value).well_formed(),
        bindings.with_variable(name, value).variable(name) == Some(value),
        other != name ==> bindings.with_variable(name, value).variable(other) == bindings.variable(
            other,
        ),
        bindings.with_variable(name, value).expression(other) == bindings.expression(other),
        bindings.kept_by(bindings.with_variable(name, value)),
{
    let names = bindings.variable_names;
    lemma_position(names, name);
    lemma_position(names, other);
    assert(names.push(name).drop_last() == names);
}

/// An assignment binds its expression and leaves every other expression,
/// and every variable, as it is.
pub proof fn lemma_with_expression(bindings: Bindings, name: Seq<char>, tree: Expr, other: Seq<char>)
    requires
        bindings.well_formed(),
    ensures
        bindings.with_expression(name, tree).well_formed(),
        bindings.with_expression(name, tree).expression(name) == Some(tree),
        other != name ==> bindings.with_expression(name, tree).expression(other)
            == bindings.expression(other),
        bindings.with_expression(name, tree).variable(other) == bindings.variable(other),
        bindings.kept_by(bindings.with_expression(name, tree)),
{
    let names = bindings.expression_names;
    lemma_position(names, name);
    lemma_position(names, other);
    assert(names.push(name).drop_last() == names);
}

/// After a failure the rest of a postfix sequence changes nothing.
pub proof fn lemma_stacked_fails(bindings: Bindings, postfix: Seq<Token>, count: int)
    requires
        0 <= count <= postfix.len(),
        bindings.stacked(postfix.take(count)).1 is Err,
    ensures
        bindings.stacked(postfix) == bindings.stacked(postfix.take(count)),
    decreases postfix.len(),
{
    if count < postfix.len() {
        assert(postfix.drop_last().take(count) == postfix.take(count));
        lemma_stacked_fails(bindings, postfix.drop_last(), count);
    } else {
        assert(postfix.take(count) == postfix);
    }
}

} // verus!
