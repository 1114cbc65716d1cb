use vstd::prelude::*;
use vstd::string::StringExecFns;
use std::rc::Rc;
use crate::bindings::lemma_position;
use crate::bindings::lemma_position_found;
use crate::bindings::lemma_stacked_fails;
use crate::bindings::position;
use crate::bindings::Bindings;
use crate::error::Error;
use crate::lexer::ignored_input;
use crate::lexer::tokenize_string;
use crate::lexer::Tokens;
use crate::numeric::Numeric;
use crate::shunting_yard::infix_to_postfix;
use crate::symexpr::share;
use crate::symexpr::BinaryFunction;
use crate::symexpr::Expr;
use crate::token::OperatorType;
use crate::token::Term;
use crate::token::Token;

verus! {

/// The names of a table.
pub open spec fn names_of(names: Seq<String>) -> Seq<Seq<char>> {
    Seq::new(names.len(), |i: int| names[i]@)
}

/// The trees of a table.
pub open spec fn trees_of(trees: Seq<Rc<Expr>>) -> Seq<Expr> {
    Seq::new(trees.len(), |i: int| *trees[i])
}

/// `String::from` on a `char`. The contract is taken on trust: it says
/// that the string holds that one character and nothing else.
#[verifier::external_body]
pub(crate) fn name_of(letter: char) -> (name: String)
    ensures
        name@ == seq![letter],
{
    String::from(letter)
}

/// The place of `key` among `names`.
fn find(names: &Vec<String>, key: &str) -> (r: Option<usize>)
    ensures
        match r {
            Some(index) => position(names_of(names@), key@) == Some(index as int),
            None => position(names_of(names@), key@) is None,
        },
{
    let wanted = String::from_str(key);
    let mut i: usize = 0;
    while i < names.len()
        invariant
            i <= names.len(),
            wanted@ == key@,
            forall|k: int| 0 <= k < i ==> names_of(names@)[k] != key@,
        decreases names.len() - i,
    {
        if names[i] == wanted {
            proof {
                lemma_position_found(names_of(names@), key@, i as int);
            }
            return Some(i);
        }
        i += 1;
    }
    proof {
        lemma_position(names_of(names@), key@);
    }
    None
}

/// The tokens of `tokens` from the place `from` on.
fn rest_of(tokens: &Tokens, from: usize) -> (rest: Tokens)
    requires
        from <= tokens.len(),
    ensures
        rest@ == tokens@.skip(from as int),
{
    let mut rest: Tokens = Vec::new();
    let mut i: usize = from;
    while i < tokens.len()
        invariant
            from <= i <= tokens.len(),
            rest@ == tokens@.subrange(from as int, i as int),
        decreases tokens.len() - i,
    {
        rest.push(tokens[i]);
        i += 1;
    }
    rest
}

/// The binding store: the variables with their values and the named
/// expressions, each table a list of names beside the list of what they
/// are bound to. An entry is made on first use and written over later; none
/// is ever taken out.
pub struct Engine {
    variable_names: Vec<String>,
    variable_list: Vec<Numeric>,
    expr_names: Vec<String>,
    expr_list: Vec<Rc<Expr>>,
    skipped: Vec<char>,
}

impl View for Engine {
    type V = Bindings;

    closed spec fn view(&self) -> Bindings {
        Bindings {
            variable_names: names_of(self.variable_names@),
            variable_values: self.variable_list@,
            expression_names: names_of(self.expr_names@),
            expressions: trees_of(self.expr_list@),
            ignored: self.skipped@,
        }
    }
}

impl Engine {
    /// An engine with nothing bound.
    pub fn new() -> (engine: Engine)
        ensures
            engine@ == Bindings::empty(),
            engine@.well_formed(),
            engine@.closed(),
    {
        let engine = Engine {
            variable_names: Vec::new(),
            variable_list: Vec::new(),
            expr_names: Vec::new(),
            expr_list: Vec::new(),
            skipped: Vec::new(),
        };
        assert(engine@.variable_names =~= Seq::empty());
        assert(engine@.expression_names =~= Seq::empty());
        assert(engine@.expressions =~= Seq::empty());
        engine
    }

    /// The value of the expression `key` over `values`; nothing for a name
    /// that is not bound.
    pub fn eval_expr_with(&self, key: &str, values: &Vec<Numeric>) -> (r: Option<
        Result<Numeric, Error>,
    >)
        requires
            self@.well_formed(),
        ensures
            r == match self@.expression(key@) {
                Some(tree) => Some(tree.value(values@)),
                None => None,
            },
    {
        match self.get_expression(key) {
            Some(expr) => Some(expr.eval(values)),
            None => None,
        }
    }

    /// The value of the expression `key` over the variables as they are
    /// bound now; nothing for a name that is not bound.
    pub fn evaluate_named(&self, key: &str) -> (r: Option<Result<Numeric, Error>>)
        requires
            self@.well_formed(),
        ensures
            r == self@.evaluated(key@),
            self@.closed() ==> r != Some(
                Err::<Numeric, Error>(Error::UndefinedVariableIndex),
            ),
    {
        proof {
            lemma_position(self@.expression_names, key@);
            if self@.closed() && self@.expression(key@) is Some {
                let index = position(self@.expression_names, key@)->0;
                self@.expressions[index].lemma_within_evaluates(self@.variable_values);
            }
        }
        match self.get_expression(key) {
            Some(expr) => Some(expr.eval(&self.variable_list)),
            None => None,
        }
    }

    /// The value that the variable `key` is bound to.
    pub fn get_variable(&self, key: &str) -> (r: Option<Numeric>)
        requires
            self@.well_formed(),
        ensures
            r == self@.variable(key@),
    {
        match find(&self.variable_names, key) {
            Some(index) => {
                proof {
                    lemma_position(self@.variable_names, key@);
                }
                Some(self.variable_list[index])
            },
            None => None,
        }
    }

    /// The slot of the variable `key`.
    pub fn get_index_of_variable(&self, key: &str) -> (r: Option<usize>)
        ensures
            match r {
                Some(index) => position(self@.variable_names, key@) == Some(index as int),
                None => position(self@.variable_names, key@) is None,
            },
    {
        find(&self.variable_names, key)
    }

    /// Binds the variable `key` to `val`: writes over the value of a known
    /// name, adds a new name at the end. Returns the slot of the variable.
    pub fn assign_variable(&mut self, key: &str, val: Numeric) -> (index: usize)
        requires
            old(self)@.well_formed(),
        ensures
            final(self)@.well_formed(),
            final(self)@ == old(self)@.with_variable(key@, val),
            index == old(self)@.variable_slot(key@),
            index < final(self)@.variable_values.len(),
            final(self)@.variable(key@) == Some(val),
            old(self)@.kept_by(final(self)@),
            old(self)@.closed() ==> final(self)@.closed(),
    {
        proof {
            lemma_position(self@.variable_names, key@);
        }
        match find(&self.variable_names, key) {
            Some(index) => {
                self.variable_list.set(index, val);
                assert(self@.variable_names == old(self)@.variable_names);
                assert(self@.expression_names == old(self)@.expression_names);
                assert(self@.expressions == old(self)@.expressions);
                index
            },
            None => {
                let new_index = self.variable_list.len();
                self.variable_names.push(String::from_str(key));
                self.variable_list.push(val);
                proof {
                    assert(self@.variable_names =~= old(self)@.variable_names.push(key@));
                    assert(self@.expression_names == old(self)@.expression_names);
                    assert(self@.expressions == old(self)@.expressions);
                    lemma_position_found(self@.variable_names, key@, new_index as int);
                    if old(self)@.closed() {
                        assert forall|index: int| 0 <= index < self@.expressions.len() implies (
                        #[trigger] self@.expressions[index]).within(
                            self@.variable_values.len() as int,
                        ) by {
                            self@.expressions[index].lemma_within_more(
                                new_index as int,
                                new_index + 1,
                            );
                        }
                    }
                }
                new_index
            },
        }
    }

    /// The tree that the expression `key` is bound to.
    pub fn get_expression(&self, key: &str) -> (r: Option<Rc<Expr>>)
        requires
            self@.well_formed(),
        ensures
            match r {
                Some(tree) => self@.expression(key@) == Some(*tree),
                None => self@.expression(key@) is None,
            },
    {
        match find(&self.expr_names, key) {
            Some(index) => {
                proof {
                    lemma_position(names_of(self.expr_names@), key@);
                }
                Some(share(&self.expr_list[index]))
            },
            None => None,
        }
    }

    /// The slot of the expression `key`.
    pub fn get_index_of_expression(&self, key: &str) -> (r: Option<usize>)
        ensures
            match r {
                Some(index) => position(self@.expression_names, key@) == Some(index as int),
                None => position(self@.expression_names, key@) is None,
            },
    {
        find(&self.expr_names, key)
    }

    /// Binds the expression `key` to `expr`: writes over the tree of a
    /// known name, adds a new name at the end. Returns the slot of the
    /// expression.
    pub fn assign_expression(&mut self, key: &str, expr: &Rc<Expr>) -> (index: usize)
        requires
            old(self)@.well_formed(),
        ensures
            final(self)@.well_formed(),
            final(self)@ == old(self)@.with_expression(key@, **expr),
            index == old(self)@.expression_slot(key@),
            final(self)@.expression(key@) == Some(**expr),
            old(self)@.kept_by(final(self)@),
            old(self)@.closed() && expr.within(old(self)@.variable_values.len() as int)
                ==> final(self)@.closed(),
    {
        proof {
            lemma_position(self@.expression_names, key@);
        }
        match find(&self.expr_names, key) {
            Some(index) => {
                self.expr_list.set(index, share(expr));
                assert(self@.expressions =~= old(self)@.expressions.update(index as int, **expr));
                assert(self@.variable_names == old(self)@.variable_names);
                assert(self@.expression_names == old(self)@.expression_names);
                index
            },
            None => {
                let new_index = self.expr_list.len();
                self.expr_names.push(String::from_str(key));
                self.expr_list.push(share(expr));
                proof {
                    assert(self@.expression_names =~= old(self)@.expression_names.push(key@));
                    assert(self@.expressions =~= old(self)@.expressions.push(**expr));
                    assert(self@.variable_names == old(self)@.variable_names);
                    lemma_position_found(self@.expression_names, key@, new_index as int);
                }
                new_index
            },
        }
    }

    /// Builds the tree of a postfix sequence, with a stack of trees: a
    /// number is pushed as a literal leaf; a variable as a leaf for its
    /// slot, which is made and bound to zero where the name is new; `+` and
    /// `*` take the top of the stack as right operand and the entry below
    /// as left operand, and push their node. Any other operator is passed
    /// over. The tree is the entry at the bottom of the stack.
    /// `MissingOperand` where `+` or `*` finds fewer than two entries, or
    /// no entry is left.
    pub fn build(&mut self, postfix: &Tokens) -> (r: Result<Rc<Expr>, Error>)
        requires
            old(self)@.well_formed(),
        ensures
            final(self)@.well_formed(),
            final(self)@ == old(self)@.built(postfix@).0,
            match r {
                Ok(tree) => old(self)@.built(postfix@).1 == Ok::<Expr, Error>(*tree)
                    && tree.within(final(self)@.variable_values.len() as int),
                Err(error) => old(self)@.built(postfix@).1 == Err::<Expr, Error>(error)
                    && error == Error::MissingOperand,
            },
            old(self)@.kept_by(final(self)@),
            old(self)@.closed() ==> final(self)@.closed(),
    {
        let ghost start = self@;
        let mut stack: Vec<Rc<Expr>> = Vec::new();
        let mut i: usize = 0;
        proof {
            assert(postfix@.take(0) == Seq::<Token>::empty());
            assert(trees_of(stack@) =~= Seq::<Expr>::empty());
        }
        while i < postfix.len()
            invariant
                i <= postfix.len(),
                self@.well_formed(),
                start == old(self)@,
                start.kept_by(self@),
                start.closed() ==> self@.closed(),
                forall|k: int|
                    0 <= k < stack.len() ==> (#[trigger] trees_of(stack@)[k]).within(
                        self@.variable_values.len() as int,
                    ),
                start.stacked(postfix@.take(i as int)) == (self@, Ok::<Seq<Expr>, Error>(
                    trees_of(stack@),
                )),
            decreases postfix.len() - i,
        {
            let token = postfix[i];
            let ghost trees = trees_of(stack@);
            proof {
                assert(postfix@.take(i + 1).drop_last() == postfix@.take(i as int));
                assert(postfix@.take(i + 1).last() == token);
            }
            match token {
                Token::Term(Term::Number(numeric)) => {
                    stack.push(Rc::new(Expr::from_numeric(numeric)));
                    assert(trees_of(stack@) =~= trees.push(Expr::Numeric(numeric)));
                },
                Token::Term(Term::Variable(letter)) => {
                    let key = name_of(letter);
                    let ghost count = self@.variable_values.len() as int;
                    let index = match self.get_index_of_variable(key.as_str()) {
                        Some(index) => {
                            proof {
                                lemma_position(self@.variable_names, key@);
                            }
                            index
                        },
                        None => self.assign_variable(key.as_str(), Numeric::from_integer(0)),
                    };
                    stack.push(Rc::new(Expr::from_key(index)));
                    proof {
                        assert(trees_of(stack@) =~= trees.push(Expr::IndepVar(index)));
                        assert forall|k: int| 0 <= k < stack.len() implies (#[trigger] trees_of(
                            stack@,
                        )[k]).within(self@.variable_values.len() as int) by {
                            if k < trees.len() {
                                trees[k].lemma_within_more(
                                    count,
                                    self@.variable_values.len() as int,
                                );
                            }
                        }
                    }
                },
                Token::Operator(operator) => {
                    if operator.operator_type == OperatorType::Add || operator.operator_type
                        == OperatorType::Mul {
                        if stack.len() < 2 {
                            proof {
                                lemma_stacked_fails(start, postfix@, i + 1);
                            }
                            return Err(Error::MissingOperand);
                        }
                        let function = if operator.operator_type == OperatorType::Add {
                            BinaryFunction::Add
                        } else {
                            BinaryFunction::Mul
                        };
                        let rhs = share(&stack[stack.len() - 1]);
                        let lhs = share(&stack[stack.len() - 2]);
                        stack.pop();
                        stack.pop();
                        stack.push(Rc::new(Expr::binary_from_heap(&lhs, &rhs, function)));
                        assert(trees_of(stack@) =~= trees.take(trees.len() - 2).push(
                            Expr::binary(function, *lhs, *rhs),
                        ));
                    }
                },
            }
            i += 1;
        }
        assert(postfix@.take(postfix@.len() as int) == postfix@);
        if stack.len() == 0 {
            Err(Error::MissingOperand)
        } else {
            Ok(share(&stack[0]))
        }
    }

    /// Reads one line and keeps what it says: see `Bindings::processed`.
    /// Returns the name that the line was kept under, for the caller to
    /// show. The characters that were passed over can be had from
    /// `ignored_input` afterwards.
    pub fn process_line(&mut self, text: &str) -> (r: Result<String, Error>)
        requires
            old(self)@.well_formed(),
        ensures
            final(self)@.well_formed(),
            final(self)@ == old(self)@.processed(text@).0,
            match r {
                Ok(name) => old(self)@.processed(text@).1 == Ok::<Seq<char>, Error>(name@)
                    && final(self)@.expression(name@) is Some,
                Err(error) => old(self)@.processed(text@).1 == Err::<Seq<char>, Error>(error),
            },
            r matches Err(error) ==> error != Error::UndefinedVariableIndex,
            old(self)@.kept_by(final(self)@),
            old(self)@.closed() ==> final(self)@.closed(),
    {
        self.skipped = ignored_input(text);
        let tokens = match tokenize_string(text) {
            Ok(tokens) => tokens,
            Err(error) => return Err(error),
        };
        let assignment = tokens.len() >= 2 && tokens[0].is_variable() && tokens[1].is_assignment();
        let key = match tokens.get(0) {
            Some(Token::Term(Term::Variable(letter))) if assignment => name_of(*letter),
            _ => String::from_str("ans"),
        };
        let rhs = if assignment {
            rest_of(&tokens, 2)
        } else {
            tokens
        };
        let postfix = match infix_to_postfix(&rhs) {
            Ok(postfix) => postfix,
            Err(error) => return Err(error),
        };
        let result = match self.build(&postfix) {
            Ok(tree) => tree,
            Err(error) => return Err(error),
        };
        if assignment && !result.depends_on_any_variable() {
            proof {
                result.lemma_within_evaluates(self@.variable_values);
            }
            let const_result = match result.eval(&self.variable_list) {
                Ok(value) => value,
                Err(error) => return Err(error),
            };
            self.assign_variable(key.as_str(), const_result);
            self.assign_expression(key.as_str(), &Rc::new(Expr::from_numeric(const_result)));
        } else {
            self.assign_expression(key.as_str(), &result);
        }
        Ok(key)
    }

    /// Reads one line, keeps what it says, and evaluates the expression
    /// that the line was kept under over the variables as they are then
    /// bound.
    pub fn interpret(&mut self, text: &str) -> (r: Result<Numeric, Error>)
        requires
            old(self)@.well_formed(),
        ensures
            final(self)@.well_formed(),
            final(self)@ == old(self)@.processed(text@).0,
            r == old(self)@.interpreted(text@),
            old(self)@.kept_by(final(self)@),
            old(self)@.closed() ==> final(self)@.closed() && r != Err::<Numeric, Error>(
                Error::UndefinedVariableIndex,
            ),
    {
        let key = match self.process_line(text) {
            Ok(key) => key,
            Err(error) => return Err(error),
        };
        match self.evaluate_named(key.as_str()) {
            Some(value) => value,
            None => {
                // `process_line` has bound the name.
                assert(false);
                Err(Error::MissingOperand)
            },
        }
    }

    /// The characters of the last line that were passed over without being
    /// white space.
    pub fn ignored_input(&self) -> (skipped: &Vec<char>)
        ensures
            skipped@ == self@.ignored,
    {
        &self.skipped
    }
}

} // verus!
