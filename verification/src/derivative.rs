use vstd::prelude::*;
use std::rc::Rc;
use crate::error::Error;
use crate::symexpr::BinaryExpr;
use crate::symexpr::BinaryFunction;
use crate::symexpr::Expr;
use crate::symexpr::UnaryExpr;
use crate::symexpr::UnaryFunction;
use crate::symexpr::share;

verus! {

impl Expr {
    /// Whether the tree holds a power whose exponent depends on the variable `key`.
    pub open spec fn has_variable_exponent(&self, key: usize) -> bool
        decreases self,
    {
        match self {
            Expr::Unary(unary) => unary.argument.has_variable_exponent(key),
            Expr::Binary(binary) => binary.lhs.has_variable_exponent(key)
                || binary.rhs.has_variable_exponent(key) || (binary.function
                == BinaryFunction::Pow && binary.rhs.has(key)),
            _ => false,
        }
    }

    /// The derivative of `function` applied to `a`, where `da` is the
    /// derivative of `a`, before it is simplified.
    pub open spec fn unary_rule(function: UnaryFunction, a: Expr, da: Expr) -> Expr {
        match function {
            UnaryFunction::Neg => Expr::unary(UnaryFunction::Neg, da),
            UnaryFunction::Exp => Expr::binary(
                BinaryFunction::Mul,
                da,
                Expr::unary(UnaryFunction::Exp, a),
            ),
            UnaryFunction::Sin => Expr::binary(
                BinaryFunction::Mul,
                da,
                Expr::unary(UnaryFunction::Cos, a),
            ),
            UnaryFunction::Cos => Expr::binary(
                BinaryFunction::Mul,
                Expr::unary(UnaryFunction::Neg, da),
                Expr::unary(UnaryFunction::Sin, a),
            ),
            UnaryFunction::Sqrt => Expr::binary(
                BinaryFunction::Div,
                da,
                Expr::binary(
                    BinaryFunction::Mul,
                    Expr::integer(2),
                    Expr::unary(UnaryFunction::Sqrt, a),
                ),
            ),
        }
    }

    /// The derivative of `function` applied to `a` and `b`, where `da` and
    /// `db` are their derivatives, before it is simplified: the sum and the
    /// difference of the derivatives, the product rule, the quotient rule,
    /// and for a power the rule for an exponent that is constant.
    pub open spec fn binary_rule(function: BinaryFunction, a: Expr, b: Expr, da: Expr, db: Expr) -> Expr {
        match function {
            BinaryFunction::Add => Expr::binary(BinaryFunction::Add, da, db),
            BinaryFunction::Sub => Expr::binary(BinaryFunction::Sub, da, db),
            BinaryFunction::Mul => Expr::binary(
                BinaryFunction::Add,
                Expr::binary(BinaryFunction::Mul, da, b),
                Expr::binary(BinaryFunction::Mul, a, db),
            ),
            BinaryFunction::Div => Expr::binary(
                BinaryFunction::Div,
                Expr::binary(
                    BinaryFunction::Sub,
                    Expr::binary(BinaryFunction::Mul, da, b),
                    Expr::binary(BinaryFunction::Mul, a, db),
                ),
                Expr::binary(BinaryFunction::Pow, b, Expr::integer(2)),
            ),
            BinaryFunction::Pow => Expr::binary(
                BinaryFunction::Mul,
                da,
                Expr::binary(
                    BinaryFunction::Mul,
                    b,
                    Expr::binary(
                        BinaryFunction::Pow,
                        a,
                        Expr::binary(BinaryFunction::Sub, b, Expr::integer(1)),
                    ),
                ),
            ),
        }
    }

    /// The derivative of the tree by the variable `key`, simplified: zero
    /// for a tree without that variable, one for the variable itself, and
    /// for a function its rule over the derivatives of its arguments. It is
    /// the derivative only where `has_variable_exponent` is false.
    pub open spec fn derivative(&self, key: usize) -> Expr
        decreases self,
    {
        if !self.has(key) {
            Expr::integer(0)
        } else {
            match self {
                Expr::Numeric(_) => Expr::integer(0),
                Expr::IndepVar(this_key) => if *this_key == key {
                    Expr::integer(1)
                } else {
                    Expr::integer(0)
                },
                Expr::Unary(unary) => Expr::unary_rule(
                    unary.function,
                    *unary.argument,
                    unary.argument.derivative(key),
                ).cleaned(),
                Expr::Binary(binary) => Expr::binary_rule(
                    binary.function,
                    *binary.lhs,
                    *binary.rhs,
                    binary.lhs.derivative(key),
                    binary.rhs.derivative(key),
                ).cleaned(),
            }
        }
    }

    /// What `get_derivative` returns.
    pub open spec fn differentiated(&self, key: usize) -> Result<Expr, Error> {
        if self.has_variable_exponent(key) {
            Err(Error::UnsupportedDerivative)
        } else {
            Ok(self.derivative(key))
        }
    }

    /// A power whose exponent depends on a variable depends on it.
    pub proof fn lemma_variable_exponent_depends(&self, key: usize)
        requires
            self.has_variable_exponent(key),
        ensures
            self.has(key),
        decreases self,
    {
        match self {
            Expr::Unary(unary) => {
                unary.argument.lemma_variable_exponent_depends(key);
            },
            Expr::Binary(binary) => {
                if binary.lhs.has_variable_exponent(key) {
                    binary.lhs.lemma_variable_exponent_depends(key);
                }
                if binary.rhs.has_variable_exponent(key) {
                    binary.rhs.lemma_variable_exponent_depends(key);
                }
            },
            _ => {},
        }
    }

    /// A derivative is simplified: no rewrite rule applies to it.
    pub proof fn lemma_derivative_is_clean(&self, key: usize)
        ensures
            self.derivative(key).is_clean(),
    {
        assert forall|tree: Expr| #[trigger] tree.cleaned().is_clean() by {
            tree.lemma_cleaned_is_clean();
        }
    }

    /// The derivative of the tree by the variable `key`, simplified.
    /// A tree without that variable gives zero at once. A power whose
    /// exponent depends on `key` is refused with `UnsupportedDerivative`.
    pub fn get_derivative(&self, key: usize) -> (r: Result<Expr, Error>)
        ensures
            r == self.differentiated(key),
            r matches Ok(tree) ==> tree.is_clean(),
        decreases self,
    {
        proof {
            self.lemma_derivative_is_clean(key);
            if self.has_variable_exponent(key) {
                self.lemma_variable_exponent_depends(key);
            }
        }
        if !self.depends_on_variable(key) {
            return Ok(Expr::zero());
        }
        match self {
            Expr::Numeric(_) => Ok(Expr::zero()),
            Expr::IndepVar(this_key) => if *this_key == key {
                Ok(Expr::from_integer(1))
            } else {
                Ok(Expr::zero())
            },
            Expr::Unary(unary) => unary.get_derivative(key),
            Expr::Binary(binary) => binary.get_derivative(key),
        }
    }
}

impl UnaryExpr {
    /// The rule for this node over the derivative of its argument, simplified.
    pub fn get_derivative(&self, key: usize) -> (r: Result<Expr, Error>)
        ensures
            r == if self.argument.has_variable_exponent(key) {
                Err::<Expr, Error>(Error::UnsupportedDerivative)
            } else {
                Ok(
                    Expr::unary_rule(
                        self.function,
                        *self.argument,
                        self.argument.derivative(key),
                    ).cleaned(),
                )
            },
        decreases self,
    {
        let da = match self.argument.get_derivative(key) {
            Ok(tree) => Rc::new(tree),
            Err(error) => return Err(error),
        };
        let a = share(&self.argument);
        let rule = match self.function {
            UnaryFunction::Neg => Expr::unary_from_heap(&da, UnaryFunction::Neg),
            UnaryFunction::Exp => Expr::binary_from_heap(
                &da,
                &Rc::new(Expr::unary_from_heap(&a, UnaryFunction::Exp)),
                BinaryFunction::Mul,
            ),
            UnaryFunction::Sin => Expr::binary_from_heap(
                &da,
                &Rc::new(Expr::unary_from_heap(&a, UnaryFunction::Cos)),
                BinaryFunction::Mul,
            ),
            UnaryFunction::Cos => Expr::binary_from_heap(
                &Rc::new(Expr::unary_from_heap(&da, UnaryFunction::Neg)),
                &Rc::new(Expr::unary_from_heap(&a, UnaryFunction::Sin)),
                BinaryFunction::Mul,
            ),
            UnaryFunction::Sqrt => {
                let root = Rc::new(Expr::unary_from_heap(&a, UnaryFunction::Sqrt));
                let two = Rc::new(Expr::from_integer(2));
                Expr::binary_from_heap(
                    &da,
                    &Rc::new(Expr::binary_from_heap(&two, &root, BinaryFunction::Mul)),
                    BinaryFunction::Div,
                )
            },
        };
        Ok(rule.get_cleaned())
    }
}

impl BinaryExpr {
    /// The rule for this node over the derivatives of its two subtrees,
    /// simplified; `UnsupportedDerivative` for a power whose exponent
    /// depends on `key`.
    pub fn get_derivative(&self, key: usize) -> (r: Result<Expr, Error>)
        ensures
            r == if Expr::Binary(*self).has_variable_exponent(key) {
                Err::<Expr, Error>(Error::UnsupportedDerivative)
            } else {
                Ok(
                    Expr::binary_rule(
                        self.function,
                        *self.lhs,
                        *self.rhs,
                        self.lhs.derivative(key),
                        self.rhs.derivative(key),
                    ).cleaned(),
                )
            },
        decreases self,
    {
        if self.function == BinaryFunction::Pow && self.rhs.depends_on_variable(key) {
            return Err(Error::UnsupportedDerivative);
        }
        let da = match self.lhs.get_derivative(key) {
            Ok(tree) => Rc::new(tree),
            Err(error) => return Err(error),
        };
        let a = share(&self.lhs);
        let b = share(&self.rhs);
        if self.function == BinaryFunction::Pow {
            proof {
                if self.rhs.has_variable_exponent(key) {
                    self.rhs.lemma_variable_exponent_depends(key);
                }
            }
            let one = Rc::new(Expr::from_integer(1));
            let lowered = Rc::new(Expr::binary_from_heap(&b, &one, BinaryFunction::Sub));
            let power = Rc::new(Expr::binary_from_heap(&a, &lowered, BinaryFunction::Pow));
            let scaled = Rc::new(Expr::binary_from_heap(&b, &power, BinaryFunction::Mul));
            return Ok(Expr::binary_from_heap(&da, &scaled, BinaryFunction::Mul).get_cleaned());
        }
        let db = match self.rhs.get_derivative(key) {
            Ok(tree) => Rc::new(tree),
            Err(error) => return Err(error),
        };
        let rule = match self.function {
            BinaryFunction::Add => Expr::binary_from_heap(&da, &db, BinaryFunction::Add),
            BinaryFunction::Sub => Expr::binary_from_heap(&da, &db, BinaryFunction::Sub),
            BinaryFunction::Mul => Expr::binary_from_heap(
                &Rc::new(Expr::binary_from_heap(&da, &b, BinaryFunction::Mul)),
                &Rc::new(Expr::binary_from_heap(&a, &db, BinaryFunction::Mul)),
                BinaryFunction::Add,
            ),
            _ => {
                let two = Rc::new(Expr::from_integer(2));
                let left = Rc::new(Expr::binary_from_heap(&da, &b, BinaryFunction::Mul));
                let right = Rc::new(Expr::binary_from_heap(&a, &db, BinaryFunction::Mul));
                Expr::binary_from_heap(
                    &Rc::new(Expr::binary_from_heap(&left, &right, BinaryFunction::Sub)),
                    &Rc::new(Expr::binary_from_heap(&b, &two, BinaryFunction::Pow)),
                    BinaryFunction::Div,
                )
            },
        };
        Ok(rule.get_cleaned())
    }
}

} // verus!
