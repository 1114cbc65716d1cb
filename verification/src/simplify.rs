use vstd::prelude::*;
use vstd::arithmetic::div_mod::lemma_div_by_self;
use std::rc::Rc;
use crate::numeric::Numeric;
use crate::numeric::quotient;
use crate::symexpr::BinaryExpr;
use crate::symexpr::BinaryFunction;
use crate::symexpr::Expr;
use crate::symexpr::UnaryExpr;
use crate::symexpr::share;

verus! {

impl Expr {
    /// Whether the tree is the literal leaf zero.
    pub open spec fn zero_leaf(&self) -> bool {
        self matches Expr::Numeric(numeric) && numeric@ == 0
    }

    /// Whether the tree is the literal leaf one.
    pub open spec fn unit_leaf(&self) -> bool {
        self matches Expr::Numeric(numeric) && numeric@ == 1
    }

    /// Whether a rewrite rule applies to `function` above `lhs` and `rhs`:
    /// a sum with a zero, a product with a zero or a one, a quotient of two
    /// equal trees.
    pub open spec fn reducible(function: BinaryFunction, lhs: Expr, rhs: Expr) -> bool {
        match function {
            BinaryFunction::Add => lhs.zero_leaf() || rhs.zero_leaf(),
            BinaryFunction::Mul => lhs.zero_leaf() || rhs.zero_leaf() || lhs.unit_leaf()
                || rhs.unit_leaf(),
            BinaryFunction::Div => lhs == rhs,
            _ => false,
        }
    }

    /// `function` above `lhs` and `rhs` after the rewrite rule that applies
    /// there, if one does: a sum with a zero is the other term; a product
    /// with a zero is zero, and with a one it is the other factor; a
    /// quotient of two equal trees is one.
    pub open spec fn rewritten(function: BinaryFunction, lhs: Expr, rhs: Expr) -> Expr {
        match function {
            BinaryFunction::Add => if lhs.zero_leaf() {
                rhs
            } else if rhs.zero_leaf() {
                lhs
            } else {
                Expr::binary(function, lhs, rhs)
            },
            BinaryFunction::Mul => if lhs.zero_leaf() || rhs.zero_leaf() {
                Expr::integer(0)
            } else if lhs.unit_leaf() {
                rhs
            } else if rhs.unit_leaf() {
                lhs
            } else {
                Expr::binary(function, lhs, rhs)
            },
            BinaryFunction::Div => if lhs == rhs {
                Expr::integer(1)
            } else {
                Expr::binary(function, lhs, rhs)
            },
            _ => Expr::binary(function, lhs, rhs),
        }
    }

    /// The simplified tree: one pass from the leaves up, in which every
    /// binary node is rewritten once its two subtrees have been.
    pub open spec fn cleaned(&self) -> Expr
        decreases self,
    {
        match self {
            Expr::Unary(unary) => Expr::unary(unary.function, unary.argument.cleaned()),
            Expr::Binary(binary) => Expr::rewritten(
                binary.function,
                binary.lhs.cleaned(),
                binary.rhs.cleaned(),
            ),
            _ => *self,
        }
    }

    /// Whether no rewrite rule applies anywhere in the tree.
    pub open spec fn is_clean(&self) -> bool
        decreases self,
    {
        match self {
            Expr::Unary(unary) => unary.argument.is_clean(),
            Expr::Binary(binary) => binary.lhs.is_clean() && binary.rhs.is_clean()
                && !Expr::reducible(binary.function, *binary.lhs, *binary.rhs),
            _ => true,
        }
    }

    /// Simplifies the tree in one pass from the leaves up: a sum with a zero
    /// becomes the other term; a product with a zero becomes zero, and with
    /// a one the other factor; a quotient of two equal trees becomes one.
    /// The rules look at the shape of a tree, never at its value.
    pub fn get_cleaned(&self) -> (r: Expr)
        ensures
            r == self.cleaned(),
            r.is_clean(),
            r.cleaned() == r,
            forall|values: Seq<Numeric>| #[trigger]
                self.value(values) is Ok ==> r.value(values) == self.value(values),
        decreases self,
    {
        proof {
            self.lemma_cleaned_is_clean();
            self.lemma_cleaned_idempotent();
            assert forall|values: Seq<Numeric>| #[trigger]
                self.value(values) is Ok implies self.cleaned().value(values) == self.value(
                values,
            ) by {
                self.lemma_cleaned_keeps_value(values);
            }
        }
        match self {
            Expr::Binary(binary) => binary.get_cleaned(),
            Expr::Unary(unary) => unary.get_cleaned(),
            _ => self.clone(),
        }
    }

    /// `get_cleaned` on a shared tree; a leaf is handed back as it is.
    pub fn trim(expr: &Rc<Expr>) -> (r: Rc<Expr>)
        ensures
            *r == expr.cleaned(),
        decreases expr,
    {
        match &**expr {
            Expr::Unary(unary) => Rc::new(unary.get_cleaned()),
            Expr::Binary(binary) => binary.trim(),
            _ => share(expr),
        }
    }

    /// A simplified tree is one to which no rewrite rule applies.
    pub proof fn lemma_cleaned_is_clean(&self)
        ensures
            self.cleaned().is_clean(),
        decreases self,
    {
        match self {
            Expr::Unary(unary) => {
                unary.argument.lemma_cleaned_is_clean();
            },
            Expr::Binary(binary) => {
                binary.lhs.lemma_cleaned_is_clean();
                binary.rhs.lemma_cleaned_is_clean();
            },
            _ => {},
        }
    }

    /// Simplification leaves a tree as it is where no rewrite rule applies to it.
    pub proof fn lemma_clean_is_fixed(&self)
        requires
            self.is_clean(),
        ensures
            self.cleaned() == *self,
        decreases self,
    {
        match self {
            Expr::Unary(unary) => {
                unary.argument.lemma_clean_is_fixed();
            },
            Expr::Binary(binary) => {
                binary.lhs.lemma_clean_is_fixed();
                binary.rhs.lemma_clean_is_fixed();
            },
            _ => {},
        }
    }

    /// Simplification changes no value: where a tree has a value over
    /// `values`, its simplified tree has the same one.
    pub proof fn lemma_cleaned_keeps_value(&self, values: Seq<Numeric>)
        requires
            self.value(values) is Ok,
        ensures
            self.cleaned().value(values) == self.value(values),
        decreases self,
    {
        match self {
            Expr::Unary(unary) => {
                unary.argument.lemma_cleaned_keeps_value(values);
            },
            Expr::Binary(binary) => {
                binary.lhs.lemma_cleaned_keeps_value(values);
                binary.rhs.lemma_cleaned_keeps_value(values);
                let lhs = binary.lhs.value(values)->Ok_0;
                let rhs = binary.rhs.value(values)->Ok_0;
                assert(Numeric::of(lhs@) == Ok::<Numeric, crate::error::Error>(lhs));
                assert(Numeric::of(rhs@) == Ok::<Numeric, crate::error::Error>(rhs));
                assert(lhs@ == 0 ==> lhs@ * rhs@ == 0) by (nonlinear_arith);
                assert(rhs@ == 0 ==> lhs@ * rhs@ == 0) by (nonlinear_arith);
                assert(lhs@ == 1 ==> lhs@ * rhs@ == rhs@) by (nonlinear_arith);
                assert(rhs@ == 1 ==> lhs@ * rhs@ == lhs@) by (nonlinear_arith);
                if lhs@ == rhs@ && lhs@ != 0 {
                    lemma_div_by_self(lhs@);
                    lemma_div_by_self(-lhs@);
                    assert(quotient(lhs@, rhs@) == 1);
                }
            },
            _ => {},
        }
    }

    /// Simplification is idempotent: to simplify a simplified tree changes nothing.
    pub proof fn lemma_cleaned_idempotent(&self)
        ensures
            self.cleaned().cleaned() == self.cleaned(),
    {
        self.lemma_cleaned_is_clean();
        self.cleaned().lemma_clean_is_fixed();
    }
}

impl UnaryExpr {
    /// The function above its simplified argument.
    pub fn get_cleaned(&self) -> (r: Expr)
        ensures
            r == Expr::Unary(*self).cleaned(),
        decreases self,
    {
        Expr::Unary(UnaryExpr { function: self.function, argument: Expr::trim(&self.argument) })
    }
}

impl BinaryExpr {
    /// The node after its two subtrees have been simplified and the rewrite
    /// rule for its function, if one applies to them, has been carried out.
    pub fn trim(&self) -> (r: Rc<Expr>)
        ensures
            *r == Expr::Binary(*self).cleaned(),
        decreases self,
    {
        let lhs = Expr::trim(&self.lhs);
        let rhs = Expr::trim(&self.rhs);
        match self.function {
            BinaryFunction::Add => {
                if lhs.is_zero() {
                    rhs
                } else if rhs.is_zero() {
                    lhs
                } else {
                    Rc::new(Expr::Binary(BinaryExpr { function: self.function, lhs, rhs }))
                }
            },
            BinaryFunction::Mul => {
                if lhs.is_zero() || rhs.is_zero() {
                    Rc::new(Expr::zero())
                } else if lhs.is_unity() {
                    rhs
                } else if rhs.is_unity() {
                    lhs
                } else {
                    Rc::new(Expr::Binary(BinaryExpr { function: self.function, lhs, rhs }))
                }
            },
            BinaryFunction::Div => {
                if *lhs == *rhs {
                    Rc::new(Expr::from_integer(1))
                } else {
                    Rc::new(Expr::Binary(BinaryExpr { function: self.function, lhs, rhs }))
                }
            },
            _ => Rc::new(Expr::Binary(BinaryExpr { function: self.function, lhs, rhs })),
        }
    }

    pub fn get_cleaned(&self) -> (r: Expr)
        ensures
            r == Expr::Binary(*self).cleaned(),
        decreases self,
    {
        (*self.trim()).clone()
    }
}

} // verus!
