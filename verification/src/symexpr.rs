use vstd::prelude::*;
use vstd::std_specs::cmp::PartialEqSpecImpl;
use std::rc::Rc;
use crate::error::Error;
use crate::numeric::Numeric;
use crate::numeric::IntegerType;

verus! {

/// The functions of one argument.
#[derive(Clone, Copy, PartialEq, Eq, Structural, Debug)]
pub enum UnaryFunction {
    Neg,
    Exp,
    Sin,
    Cos,
    Sqrt,
}

/// The functions of two arguments.
#[derive(Clone, Copy, PartialEq, Eq, Structural, Debug)]
pub enum BinaryFunction {
    Add,
    Sub,
    Mul,
    Div,
    Pow,
}

/// An expression tree. A tree is never changed once it is built; a subtree
/// may hang below several parents.
#[derive(Debug)]
pub enum Expr {
    /// A literal.
    Numeric(Numeric),
    /// The value in the given slot of the values that `eval` is handed.
    IndepVar(usize),
    Unary(UnaryExpr),
    Binary(BinaryExpr),
}

/// A function of one argument above its argument.
#[derive(Debug)]
pub struct UnaryExpr {
    pub function: UnaryFunction,
    pub argument: Rc<Expr>,
}

/// A function of two arguments above its left and right subtrees.
#[derive(Debug)]
pub struct BinaryExpr {
    pub function: BinaryFunction,
    pub lhs: Rc<Expr>,
    pub rhs: Rc<Expr>,
}

/// `Rc::clone`: a second pointer to the same tree. The contract is taken
/// on trust: it says that the new pointer points to the tree that `tree`
/// points to.
#[verifier::external_body]
pub(crate) fn share(tree: &Rc<Expr>) -> (r: Rc<Expr>)
    ensures
        r == *tree,
{
    Rc::clone(tree)
}

/// What `function` makes of `argument`.
pub open spec fn apply_unary(function: UnaryFunction, argument: Numeric) -> Result<Numeric, Error> {
    match function {
        UnaryFunction::Neg => argument.negation(),
        _ => Err(Error::UnsupportedFunction),
    }
}

/// What `function` makes of `lhs` and `rhs`.
pub open spec fn apply_binary(function: BinaryFunction, lhs: Numeric, rhs: Numeric) -> Result<Numeric, Error> {
    match function {
        BinaryFunction::Add => lhs.sum(rhs),
        BinaryFunction::Sub => lhs.difference(rhs),
        BinaryFunction::Mul => lhs.product(rhs),
        BinaryFunction::Div => lhs.ratio(rhs),
        BinaryFunction::Pow => lhs.power(rhs@ as IntegerType),
    }
}

impl Expr {
    /// The tree with `function` above `argument`.
    pub open spec fn unary(function: UnaryFunction, argument: Expr) -> Expr {
        Expr::Unary(UnaryExpr { function, argument: Rc::new(argument) })
    }

    /// The tree with `function` above `lhs` and `rhs`.
    pub open spec fn binary(function: BinaryFunction, lhs: Expr, rhs: Expr) -> Expr {
        Expr::Binary(BinaryExpr { function, lhs: Rc::new(lhs), rhs: Rc::new(rhs) })
    }

    /// The literal leaf for `integer`.
    pub open spec fn integer(integer: IntegerType) -> Expr {
        Expr::Numeric(Numeric::Integer(integer))
    }

    /// Whether the tree holds a variable leaf.
    pub open spec fn has_variable(&self) -> bool
        decreases self,
    {
        match self {
            Expr::Numeric(_) => false,
            Expr::IndepVar(_) => true,
            Expr::Unary(unary) => unary.argument.has_variable(),
            Expr::Binary(binary) => binary.lhs.has_variable() || binary.rhs.has_variable(),
        }
    }

    /// Whether the tree holds a leaf for the variable `key`.
    pub open spec fn has(&self, key: usize) -> bool
        decreases self,
    {
        match self {
            Expr::Numeric(_) => false,
            Expr::IndepVar(this_key) => *this_key == key,
            Expr::Unary(unary) => unary.argument.has(key),
            Expr::Binary(binary) => binary.lhs.has(key) || binary.rhs.has(key),
        }
    }

    /// Whether every variable leaf of the tree refers to a slot below `count`.
    pub open spec fn within(&self, count: int) -> bool
        decreases self,
    {
        match self {
            Expr::Numeric(_) => true,
            Expr::IndepVar(key) => *key < count,
            Expr::Unary(unary) => unary.argument.within(count),
            Expr::Binary(binary) => binary.lhs.within(count) && binary.rhs.within(count),
        }
    }

    /// A tree that refers to slots below `count` refers to slots below any
    /// larger count.
    pub proof fn lemma_within_more(&self, count: int, more: int)
        requires
            self.within(count),
            count <= more,
        ensures
            self.within(more),
        decreases self,
    {
        match self {
            Expr::Unary(unary) => {
                unary.argument.lemma_within_more(count, more);
            },
            Expr::Binary(binary) => {
                binary.lhs.lemma_within_more(count, more);
                binary.rhs.lemma_within_more(count, more);
            },
            _ => {},
        }
    }

    /// Over values for all the slots that it refers to, a tree never fails
    /// for want of a slot.
    pub proof fn lemma_within_evaluates(&self, values: Seq<Numeric>)
        requires
            self.within(values.len() as int),
        ensures
            self.value(values) != Err::<Numeric, Error>(Error::UndefinedVariableIndex),
        decreases self,
    {
        match self {
            Expr::Unary(unary) => {
                unary.argument.lemma_within_evaluates(values);
            },
            Expr::Binary(binary) => {
                binary.lhs.lemma_within_evaluates(values);
                binary.rhs.lemma_within_evaluates(values);
            },
            _ => {},
        }
    }

    /// The value of the tree where slot `k` holds `values[k]`. The argument
    /// of a function is evaluated before the function is applied, the left
    /// one first, and the first failure is the result.
    pub open spec fn value(&self, values: Seq<Numeric>) -> Result<Numeric, Error>
        decreases self,
    {
        match self {
            Expr::Numeric(numeric) => Ok(*numeric),
            Expr::IndepVar(key) => if *key < values.len() {
                Ok(values[*key as int])
            } else {
                Err(Error::UndefinedVariableIndex)
            },
            Expr::Unary(unary) => match unary.argument.value(values) {
                Ok(argument) => apply_unary(unary.function, argument),
                Err(error) => Err(error),
            },
            Expr::Binary(binary) => match binary.lhs.value(values) {
                Ok(lhs) => match binary.rhs.value(values) {
                    Ok(rhs) => apply_binary(binary.function, lhs, rhs),
                    Err(error) => Err(error),
                },
                Err(error) => Err(error),
            },
        }
    }

    /// The literal leaf zero.
    pub fn zero() -> (r: Expr)
        ensures
            r == Expr::integer(0),
    {
        Expr::from_integer(0)
    }

    /// The literal leaf for `val`.
    pub fn from_numeric(val: Numeric) -> (r: Expr)
        ensures
            r == Expr::Numeric(val),
    {
        Expr::Numeric(val)
    }

    /// The literal leaf for the integer `val`.
    pub fn from_integer(val: IntegerType) -> (r: Expr)
        ensures
            r == Expr::integer(val),
    {
        Expr::Numeric(Numeric::Integer(val))
    }

    /// The leaf for the variable in slot `key`.
    pub fn from_key(key: usize) -> (r: Expr)
        ensures
            r == Expr::IndepVar(key),
    {
        Expr::IndepVar(key)
    }

    /// A copy of the tree behind a shared pointer.
    pub fn clone_to_heap(&self) -> (r: Rc<Expr>)
        ensures
            *r == *self,
    {
        Rc::new(self.clone())
    }

    /// The tree behind a shared pointer.
    pub fn move_to_heap(self) -> (r: Rc<Expr>)
        ensures
            *r == self,
    {
        Rc::new(self)
    }

    /// Whether the tree is a literal leaf that holds one.
    pub fn is_unity(&self) -> (b: bool)
        ensures
            b == (self matches Expr::Numeric(numeric) && numeric@ == 1),
    {
        match self {
            Expr::Numeric(numeric) => numeric.is_unity(),
            _ => false,
        }
    }

    /// Whether the tree is a literal leaf that holds zero.
    pub fn is_zero(&self) -> (b: bool)
        ensures
            b == (self matches Expr::Numeric(numeric) && numeric@ == 0),
    {
        match self {
            Expr::Numeric(numeric) => numeric.is_zero(),
            _ => false,
        }
    }

    /// `function` above `argument`, which the new node shares.
    pub fn unary_from_heap(argument: &Rc<Expr>, function: UnaryFunction) -> (r: Expr)
        ensures
            r == Expr::unary(function, **argument),
    {
        Expr::Unary(UnaryExpr { function: function, argument: share(argument) })
    }

    /// `function` above a copy of `argument`.
    pub fn unary_from(argument: &Expr, function: UnaryFunction) -> (r: Expr)
        ensures
            r == Expr::unary(function, *argument),
    {
        Expr::Unary(UnaryExpr { function: function, argument: Rc::new(argument.clone()) })
    }

    /// `function` above `lhs` and `rhs`, which the new node shares.
    pub fn binary_from_heap(lhs: &Rc<Expr>, rhs: &Rc<Expr>, function: BinaryFunction) -> (r: Expr)
        ensures
            r == Expr::binary(function, **lhs, **rhs),
    {
        Expr::Binary(BinaryExpr { function: function, lhs: share(lhs), rhs: share(rhs) })
    }

    /// `function` above copies of `lhs` and `rhs`.
    pub fn binary_from(lhs: &Expr, rhs: &Expr, function: BinaryFunction) -> (r: Expr)
        ensures
            r == Expr::binary(function, *lhs, *rhs),
    {
        Expr::Binary(
            BinaryExpr { function: function, lhs: Rc::new(lhs.clone()), rhs: Rc::new(rhs.clone()) },
        )
    }

    /// `-self`, as a tree.
    pub fn neg(&self) -> (r: Expr)
        ensures
            r == Expr::unary(UnaryFunction::Neg, *self),
    {
        Expr::unary_from(self, UnaryFunction::Neg)
    }

    /// `self + other`, as a tree.
    pub fn add(&self, other: &Expr) -> (r: Expr)
        ensures
            r == Expr::binary(BinaryFunction::Add, *self, *other),
    {
        Expr::binary_from(self, other, BinaryFunction::Add)
    }

    /// `self - other`, as a tree.
    pub fn sub(&self, other: &Expr) -> (r: Expr)
        ensures
            r == Expr::binary(BinaryFunction::Sub, *self, *other),
    {
        Expr::binary_from(self, other, BinaryFunction::Sub)
    }

    /// `self * other`, as a tree.
    pub fn mul(&self, other: &Expr) -> (r: Expr)
        ensures
            r == Expr::binary(BinaryFunction::Mul, *self, *other),
    {
        Expr::binary_from(self, other, BinaryFunction::Mul)
    }

    /// `self / other`, as a tree.
    pub fn div(&self, other: &Expr) -> (r: Expr)
        ensures
            r == Expr::binary(BinaryFunction::Div, *self, *other),
    {
        Expr::binary_from(self, other, BinaryFunction::Div)
    }

    /// `self` raised to the literal `pow`, as a tree.
    pub fn pow(&self, pow: IntegerType) -> (r: Expr)
        ensures
            r == Expr::binary(BinaryFunction::Pow, *self, Expr::integer(pow)),
    {
        Expr::binary_from(self, &Expr::from_integer(pow), BinaryFunction::Pow)
    }

    /// Evaluates the tree against `values`: a literal is itself, a variable
    /// leaf is the value in its slot, a function is applied to the values of
    /// its arguments.
    pub fn eval(&self, values: &Vec<Numeric>) -> (r: Result<Numeric, Error>)
        ensures
            r == self.value(values@),
        decreases self,
    {
        match self {
            Expr::Numeric(numeric) => Ok(*numeric),
            Expr::IndepVar(key) => if *key < values.len() {
                Ok(values[*key])
            } else {
                Err(Error::UndefinedVariableIndex)
            },
            Expr::Unary(expr) => expr.eval(values),
            Expr::Binary(expr) => expr.eval(values),
        }
    }

    /// Whether the tree holds a variable leaf.
    pub fn depends_on_any_variable(&self) -> (b: bool)
        ensures
            b == self.has_variable(),
        decreases self,
    {
        match self {
            Expr::IndepVar(_key) => true,
            Expr::Unary(expr) => expr.argument.depends_on_any_variable(),
            Expr::Binary(expr) => expr.lhs.depends_on_any_variable()
                || expr.rhs.depends_on_any_variable(),
            _ => false,
        }
    }

    /// Whether the tree holds a leaf for the variable in slot `key`. Only
    /// the leaves of this tree count: a name that is bound to another
    /// expression is not followed.
    pub fn depends_on_variable(&self, key: usize) -> (b: bool)
        ensures
            b == self.has(key),
        decreases self,
    {
        match self {
            Expr::IndepVar(this_key) => *this_key == key,
            Expr::Unary(expr) => expr.argument.depends_on_variable(key),
            Expr::Binary(expr) => expr.lhs.depends_on_variable(key) || expr.rhs.depends_on_variable(
                key,
            ),
            _ => false,
        }
    }
}

impl Clone for Expr {
    /// A copy of the root; the subtrees are shared.
    fn clone(&self) -> (r: Expr)
        ensures
            r == *self,
    {
        match self {
            Expr::Numeric(numeric) => Expr::Numeric(*numeric),
            Expr::IndepVar(key) => Expr::IndepVar(*key),
            Expr::Unary(expr) => Expr::Unary(expr.clone()),
            Expr::Binary(expr) => Expr::Binary(expr.clone()),
        }
    }
}

impl Clone for UnaryExpr {
    fn clone(&self) -> (r: UnaryExpr)
        ensures
            r == *self,
    {
        UnaryExpr { function: self.function, argument: share(&self.argument) }
    }
}

impl Clone for BinaryExpr {
    fn clone(&self) -> (r: BinaryExpr)
        ensures
            r == *self,
    {
        BinaryExpr { function: self.function, lhs: share(&self.lhs), rhs: share(&self.rhs) }
    }
}

impl PartialEq for Expr {
    /// Whether the two trees have the same shape and the same leaves.
    fn eq(&self, other: &Expr) -> (b: bool)
        decreases self,
    {
        match (self, other) {
            (Expr::Numeric(this), Expr::Numeric(that)) => *this == *that,
            (Expr::IndepVar(this), Expr::IndepVar(that)) => *this == *that,
            (Expr::Unary(this), Expr::Unary(that)) => this.eq(that),
            (Expr::Binary(this), Expr::Binary(that)) => this.eq(that),
            _ => false,
        }
    }
}

impl PartialEqSpecImpl for Expr {
    open spec fn obeys_eq_spec() -> bool {
        true
    }

    open spec fn eq_spec(&self, other: &Expr) -> bool {
        *self == *other
    }
}

impl PartialEq for UnaryExpr {
    fn eq(&self, other: &UnaryExpr) -> (b: bool)
        decreases self,
    {
        self.function == other.function && (*self.argument).eq(&*other.argument)
    }
}

impl PartialEqSpecImpl for UnaryExpr {
    open spec fn obeys_eq_spec() -> bool {
        true
    }

    open spec fn eq_spec(&self, other: &UnaryExpr) -> bool {
        *self == *other
    }
}

impl PartialEq for BinaryExpr {
    fn eq(&self, other: &BinaryExpr) -> (b: bool)
        decreases self,
    {
        self.function == other.function && (*self.lhs).eq(&*other.lhs) && (*self.rhs).eq(
            &*other.rhs,
        )
    }
}

impl PartialEqSpecImpl for BinaryExpr {
    open spec fn obeys_eq_spec() -> bool {
        true
    }

    open spec fn eq_spec(&self, other: &BinaryExpr) -> bool {
        *self == *other
    }
}

impl UnaryExpr {
    /// The function applied to the value of its argument. Of an integer
    /// only the negative can be taken: `exp`, `sin`, `cos` and `sqrt` fail
    /// with `UnsupportedFunction`.
    pub fn eval(&self, values: &Vec<Numeric>) -> (r: Result<Numeric, Error>)
        ensures
            r == Expr::Unary(*self).value(values@),
        decreases self,
    {
        let argument = match self.argument.eval(values) {
            Ok(argument) => argument,
            Err(error) => return Err(error),
        };
        match self.function {
            UnaryFunction::Neg => argument.neg(),
            _ => Err(Error::UnsupportedFunction),
        }
    }
}

impl BinaryExpr {
    /// The function applied to the values of its two subtrees, the left
    /// one evaluated first.
    pub fn eval(&self, values: &Vec<Numeric>) -> (r: Result<Numeric, Error>)
        ensures
            r == Expr::Binary(*self).value(values@),
        decreases self,
    {
        let lhs = match self.lhs.eval(values) {
            Ok(lhs) => lhs,
            Err(error) => return Err(error),
        };
        let rhs = match self.rhs.eval(values) {
            Ok(rhs) => rhs,
            Err(error) => return Err(error),
        };
        match self.function {
            BinaryFunction::Add => lhs.add(rhs),
            BinaryFunction::Sub => lhs.sub(rhs),
            BinaryFunction::Mul => lhs.mul(rhs),
            BinaryFunction::Div => lhs.div(rhs),
            BinaryFunction::Pow => lhs.pow(rhs.to_integer()),
        }
    }
}

/// `-arg`, as a shared tree.
pub fn neg(arg: &Rc<Expr>) -> (r: Rc<Expr>)
    ensures
        *r == Expr::unary(UnaryFunction::Neg, **arg),
{
    Rc::new(Expr::unary_from_heap(arg, UnaryFunction::Neg))
}

/// The exponential of `arg`, as a shared tree.
pub fn exp(arg: &Rc<Expr>) -> (r: Rc<Expr>)
    ensures
        *r == Expr::unary(UnaryFunction::Exp, **arg),
{
    Rc::new(Expr::unary_from_heap(arg, UnaryFunction::Exp))
}

/// `lhs + rhs`, as a shared tree.
pub fn add(lhs: &Rc<Expr>, rhs: &Rc<Expr>) -> (r: Rc<Expr>)
    ensures
        *r == Expr::binary(BinaryFunction::Add, **lhs, **rhs),
{
    Rc::new(Expr::binary_from_heap(lhs, rhs, BinaryFunction::Add))
}

/// `lhs - rhs`, as a shared tree.
pub fn sub(lhs: &Rc<Expr>, rhs: &Rc<Expr>) -> (r: Rc<Expr>)
    ensures
        *r == Expr::binary(BinaryFunction::Sub, **lhs, **rhs),
{
    Rc::new(Expr::binary_from_heap(lhs, rhs, BinaryFunction::Sub))
}

/// `lhs * rhs`, as a shared tree.
pub fn mul(lhs: &Rc<Expr>, rhs: &Rc<Expr>) -> (r: Rc<Expr>)
    ensures
        *r == Expr::binary(BinaryFunction::Mul, **lhs, **rhs),
{
    Rc::new(Expr::binary_from_heap(lhs, rhs, BinaryFunction::Mul))
}

} // verus!
