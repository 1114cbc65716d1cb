use rusty_cas::error::Error;
use rusty_cas::numeric::Numeric;
use rusty_cas::symexpr::BinaryFunction;
use rusty_cas::symexpr::Expr;
use rusty_cas::symexpr::UnaryFunction;
use std::rc::Rc;

#[test]
fn symexpr_test_symexpr_constants() {
    let one = Expr::from_integer(1);
    let zero = Expr::from_integer(0);
    assert_eq!(one, Expr::Numeric(Numeric::Integer(1)));
    assert_eq!(zero, Expr::zero());
}

#[test]
fn symexpr2_test_symexpr_constants() {
    let one = Expr::from_integer(1);
    let zero = Expr::from_integer(0);
    assert_ne!(one, zero);
}

#[test]
fn symexpr_test_basic_variable_mapping() {
    let values: Vec<Numeric> = vec![Numeric::from_integer(5)];
    let x = Expr::from_key(0);
    let one = Expr::from_integer(1);

    let one_plus_x = one.add(&x);
    let one_minus_x = one.sub(&x);

    // 1 + x where x = 5 gives 6
    assert_eq!(one_plus_x.eval(&values), Ok(Numeric::from_integer(6)));
    assert_eq!(one_minus_x.eval(&values), Ok(Numeric::from_integer(-4)));
}

#[test]
fn symexpr2_test_basic_variable_mapping() {
    let values: Vec<Numeric> = vec![Numeric::from_integer(0), Numeric::from_integer(5)];
    let x = Expr::from_key(1);
    let one = Expr::from_integer(1);

    let one_plus_x = one.add(&x);
    let one_minus_x = one.sub(&x);

    assert_eq!(one_plus_x.eval(&values), Ok(Numeric::from_integer(6)));
    assert_eq!(one_minus_x.eval(&values), Ok(Numeric::from_integer(-4)));
}

#[test]
fn symexpr_test_basic_cleanup() {
    let x = Expr::from_key(0);
    let one = Expr::from_integer(1);
    let zero = Expr::from_integer(0);

    let one_plus_x = one.add(&x);
    assert_eq!(one_plus_x.get_cleaned(), one_plus_x);

    // 1 * (1 + x) = 1 + x
    let messy_expr_1 = one.mul(&one_plus_x);
    assert_eq!(messy_expr_1.get_cleaned(), one_plus_x);

    // 0 * (1 + x) = 0
    let messy_expr_2 = zero.mul(&one_plus_x);
    assert_eq!(messy_expr_2.get_cleaned(), zero);

    // 0 + (1 + x) = 1 + x
    let messy_expr_3 = zero.add(&one_plus_x);
    assert_eq!(messy_expr_3.get_cleaned(), one_plus_x);

    // (1 + x) / (1 + x) = 1
    let messy_expr_4 = one_plus_x.div(&one_plus_x);
    assert_eq!(messy_expr_4.get_cleaned(), one);
}

#[test]
fn symexpr2_test_basic_cleanup() {
    let x = Expr::from_key(0);
    let one = Expr::from_integer(1);
    let zero = Expr::from_integer(0);

    let one_plus_x = one.add(&x);
    let messy_expr_1 = one.mul(&one_plus_x);
    let messy_expr_2 = zero.mul(&one_plus_x);
    let messy_expr_3 = zero.add(&one_plus_x);
    let messy_expr_4 = one_plus_x.div(&one_plus_x);

    assert_eq!(one_plus_x.get_cleaned(), one_plus_x);
    assert_eq!(messy_expr_1.get_cleaned(), one_plus_x);
    assert_eq!(messy_expr_2.get_cleaned(), zero);
    assert_eq!(messy_expr_3.get_cleaned(), one_plus_x);
    assert_eq!(messy_expr_4.get_cleaned(), one);
}

#[test]
fn test_power_derivative() {
    let values: Vec<Numeric> = vec![Numeric::from_integer(5)];

    let x_var = Expr::from_key(0);
    let one = Expr::from_integer(1);

    let y = one.add(&x_var);
    let y_squared = y.pow(2);

    assert!(y.depends_on_variable(0));
    assert!(y_squared.depends_on_variable(0));

    // For (x = 5) & (y = 1 + x)
    // 1 + x = 6
    assert_eq!(y.eval(&values), Ok(Numeric::from_integer(6)));

    // d/dx -> (1 + x) = 1
    assert_eq!(y.get_derivative(0).unwrap().eval(&values), Ok(Numeric::from_integer(1)));

    // (1 + x)^2 = 36
    assert_eq!(y_squared.eval(&values), Ok(Numeric::from_integer(36)));

    // d/dx -> (1 + x)^2 = 2(1 + x) = 12
    assert_eq!(
        y_squared.get_derivative(0).unwrap().eval(&values),
        Ok(Numeric::from_integer(12))
    );
}

#[test]
fn test_unity_or_zero() {
    assert!(Expr::from_integer(1).is_unity());
    assert!(Expr::from_integer(0).is_zero());
    assert!(!Expr::from_integer(0).is_unity());
    assert!(!Expr::from_integer(1).is_zero());
    assert!(!Expr::from_key(0).is_zero());
    assert!(!Expr::from_key(1).is_unity());
}

#[test]
fn test_expr_on_stack_and_heap() {
    let values: Vec<Numeric> = Vec::new();
    let a = Expr::from_integer(1);
    let b = Expr::from_integer(2);
    let c_on_heap =
        Expr::binary_from_heap(&a.clone_to_heap(), &b.clone_to_heap(), BinaryFunction::Add)
            .clone_to_heap();
    let c_on_stack = Expr::binary_from(&a, &b, BinaryFunction::Add);
    assert_eq!(c_on_heap.eval(&values), Ok(Numeric::from_integer(3)));
    assert_eq!(c_on_stack.eval(&values), Ok(Numeric::from_integer(3)));
}

#[test]
fn test_evaluation_of_expr_with_variables() {
    let values: Vec<Numeric> = vec![Numeric::from_integer(2), Numeric::from_integer(3)];
    let one = Expr::from_integer(1);
    let x = Expr::from_key(0);
    let y = Expr::from_key(1);

    // x + 1 + y
    let f = Expr::binary_from(
        &x,
        &Expr::binary_from(&one, &y, BinaryFunction::Add),
        BinaryFunction::Add,
    );

    assert!(f.depends_on_any_variable());
    assert!(f.depends_on_variable(0));
    assert!(f.depends_on_variable(1));
    assert!(!f.depends_on_variable(2));

    assert_eq!(f.eval(&values), Ok(Numeric::from_integer(6)));
}

#[test]
fn test_trimming() {
    let zero = Expr::from_integer(0);
    let two = Expr::from_integer(2);
    let x = Expr::from_key(0);

    let f = Expr::binary_from(&zero, &x, BinaryFunction::Add).clone_to_heap();

    let g = Expr::binary_from(&two, &two, BinaryFunction::Add).clone_to_heap();

    assert_eq!(*Expr::trim(&f), Expr::IndepVar(0));
    assert_eq!(*Expr::trim(&g), *g);
}

#[test]
fn test_arithmetic() {
    let values: Vec<Numeric> = Vec::new();
    let a = Expr::from_integer(2).clone_to_heap();
    let b = Expr::from_integer(3).clone_to_heap();

    assert_eq!(rusty_cas::symexpr::add(&a, &b).eval(&values), Ok(Numeric::from_integer(5)));
    assert_eq!(rusty_cas::symexpr::sub(&a, &b).eval(&values), Ok(Numeric::from_integer(-1)));
    assert_eq!(rusty_cas::symexpr::mul(&a, &b).eval(&values), Ok(Numeric::from_integer(6)));
}

#[test]
fn builders_make_the_nodes_they_name() {
    let x = Expr::from_key(0).move_to_heap();
    let two = Expr::from_numeric(Numeric::from_integer(2)).move_to_heap();
    assert_eq!(
        *rusty_cas::symexpr::neg(&x),
        Expr::unary_from(&Expr::IndepVar(0), UnaryFunction::Neg)
    );
    assert_eq!(
        *rusty_cas::symexpr::exp(&x),
        Expr::unary_from_heap(&x, UnaryFunction::Exp)
    );
    assert_eq!(
        *rusty_cas::symexpr::sub(&x, &two),
        Expr::from_key(0).sub(&Expr::from_integer(2))
    );
    assert_eq!(
        *rusty_cas::symexpr::mul(&x, &two),
        Expr::binary_from_heap(&x, &two, BinaryFunction::Mul)
    );
    assert_eq!(Expr::from_key(0).neg(), *rusty_cas::symexpr::neg(&x));
    match Expr::from_key(0).pow(3) {
        Expr::Binary(node) => {
            assert_eq!(node.function, BinaryFunction::Pow);
            assert_eq!(*node.lhs, Expr::IndepVar(0));
            assert_eq!(*node.rhs, Expr::from_integer(3));
        },
        _ => panic!("not a binary node"),
    }
}

#[test]
fn a_shared_subtree_is_the_same_tree() {
    let inner = Expr::from_key(3).add(&Expr::from_integer(4)).move_to_heap();
    let outer = Expr::unary_from_heap(&inner, UnaryFunction::Neg);
    match &outer {
        Expr::Unary(node) => {
            assert_eq!(*node.argument, *inner);
            assert!(Rc::ptr_eq(&node.argument, &inner));
        },
        _ => panic!("not a unary node"),
    }
    let copy = outer.clone();
    assert_eq!(copy, outer);
    assert_ne!(copy, *inner);
}

#[test]
fn trees_are_compared_by_shape() {
    let x = Expr::from_key(0);
    let y = Expr::from_key(1);
    assert_eq!(x.add(&y), x.add(&y));
    assert_ne!(x.add(&y), y.add(&x));
    assert_ne!(x.add(&y), x.mul(&y));
    assert_ne!(x.add(&y), x);
    assert_ne!(x.neg(), Expr::unary_from(&x, UnaryFunction::Exp));
    assert_ne!(Expr::from_integer(0), Expr::from_key(0));
    assert_ne!(x.neg(), y.neg());
}

#[test]
fn eval_of_each_binary_function() {
    let values = vec![Numeric::from_integer(7), Numeric::from_integer(2)];
    let x = Expr::from_key(0);
    let y = Expr::from_key(1);
    assert_eq!(x.add(&y).eval(&values), Ok(Numeric::Integer(9)));
    assert_eq!(x.sub(&y).eval(&values), Ok(Numeric::Integer(5)));
    assert_eq!(x.mul(&y).eval(&values), Ok(Numeric::Integer(14)));
    assert_eq!(x.div(&y).eval(&values), Ok(Numeric::Integer(3)));
    assert_eq!(
        Expr::binary_from(&x, &y, BinaryFunction::Pow).eval(&values),
        Ok(Numeric::Integer(49))
    );
    assert_eq!(x.neg().eval(&values), Ok(Numeric::Integer(-7)));
    assert_eq!(Expr::from_integer(11).eval(&values), Ok(Numeric::Integer(11)));
}

#[test]
fn eval_fails_on_a_missing_slot() {
    let values = vec![Numeric::from_integer(7)];
    assert_eq!(Expr::from_key(1).eval(&values), Err(Error::UndefinedVariableIndex));
    assert_eq!(Expr::from_key(0).eval(&Vec::new()), Err(Error::UndefinedVariableIndex));
    assert_eq!(
        Expr::from_integer(1).add(&Expr::from_key(9)).eval(&values),
        Err(Error::UndefinedVariableIndex)
    );
}

#[test]
fn eval_fails_on_division_by_zero_and_overflow() {
    let values = vec![Numeric::from_integer(0), Numeric::from_integer(i64::MAX)];
    let x = Expr::from_key(0);
    let big = Expr::from_key(1);
    assert_eq!(Expr::from_integer(1).div(&x).eval(&values), Err(Error::DivisionByZero));
    assert_eq!(big.add(&Expr::from_integer(1)).eval(&values), Err(Error::Overflow));
    assert_eq!(big.mul(&big).eval(&values), Err(Error::Overflow));
}

#[test]
fn eval_reports_the_first_failure() {
    let values = vec![Numeric::from_integer(0)];
    let by_zero = Expr::from_integer(1).div(&Expr::from_key(0));
    let missing = Expr::from_key(5);
    assert_eq!(by_zero.add(&missing).eval(&values), Err(Error::DivisionByZero));
    assert_eq!(missing.add(&by_zero).eval(&values), Err(Error::UndefinedVariableIndex));
    let exp = Expr::unary_from(&missing, UnaryFunction::Exp);
    assert_eq!(exp.eval(&values), Err(Error::UndefinedVariableIndex));
}

#[test]
fn eval_refuses_what_is_no_integer_function() {
    let values: Vec<Numeric> = Vec::new();
    let zero = Expr::from_integer(0);
    for function in [UnaryFunction::Exp, UnaryFunction::Sin, UnaryFunction::Cos, UnaryFunction::Sqrt] {
        assert_eq!(
            Expr::unary_from(&zero, function).eval(&values),
            Err(Error::UnsupportedFunction)
        );
    }
}

#[test]
fn dependency_queries() {
    let x = Expr::from_key(0);
    let y = Expr::from_key(1);
    let f = Expr::unary_from(&x.mul(&Expr::from_integer(3)), UnaryFunction::Sin);
    assert!(f.depends_on_any_variable());
    assert!(f.depends_on_variable(0));
    assert!(!f.depends_on_variable(1));
    assert!(!Expr::from_integer(3).depends_on_any_variable());
    assert!(!Expr::from_integer(3).neg().depends_on_any_variable());
    assert!(x.div(&y).depends_on_variable(1));
    assert!(y.depends_on_any_variable());
}

#[test]
fn cleaning_is_one_pass_from_the_leaves() {
    let x = Expr::from_key(0);
    let zero = Expr::from_integer(0);
    let one = Expr::from_integer(1);
    // (0 + 0) + x: the inner sum becomes 0 first, then the outer one x
    assert_eq!(zero.add(&zero).add(&x).get_cleaned(), x);
    // (1 * 1) * x
    assert_eq!(one.mul(&one).mul(&x).get_cleaned(), x);
    // x * (0 + 0)
    assert_eq!(x.mul(&zero.add(&zero)).get_cleaned(), zero);
    // (x + 0) / (0 + x)
    assert_eq!(x.add(&zero).div(&zero.add(&x)).get_cleaned(), one);
    // -(x * 1)
    assert_eq!(x.mul(&one).neg().get_cleaned(), x.neg());
    // sub and pow have no rule of their own
    assert_eq!(x.sub(&zero).get_cleaned(), x.sub(&zero));
    assert_eq!(x.sub(&x).get_cleaned(), x.sub(&x));
    assert_eq!(x.pow(1).get_cleaned(), x.pow(1));
    assert_eq!(x.pow(0).get_cleaned(), x.pow(0));
    // x + 0 and 0 * anything
    assert_eq!(x.add(&zero).get_cleaned(), x);
    assert_eq!(x.mul(&one).get_cleaned(), x);
    assert_eq!(zero.div(&zero).get_cleaned(), one);
}

#[test]
fn cleaning_looks_at_shape_only() {
    let x = Expr::from_key(0);
    let y = Expr::from_key(1);
    let two = Expr::from_integer(2);
    let one = Expr::from_integer(1);
    assert_eq!(x.add(&y).div(&y.add(&x)).get_cleaned(), x.add(&y).div(&y.add(&x)));
    assert_eq!(two.sub(&one).mul(&x).get_cleaned(), two.sub(&one).mul(&x));
    assert_eq!(one.add(&one).get_cleaned(), one.add(&one));
}

#[test]
fn cleaning_twice_is_cleaning_once() {
    let x = Expr::from_key(0);
    let y = Expr::from_key(1);
    let zero = Expr::from_integer(0);
    let one = Expr::from_integer(1);
    let trees = vec![
        zero.add(&zero).add(&x),
        one.mul(&x.add(&zero)).div(&x),
        x.mul(&y).add(&zero.mul(&y)).neg(),
        Expr::unary_from(&x.div(&x).mul(&y), UnaryFunction::Sqrt),
        x.pow(2).sub(&one.mul(&one)),
        x.clone(),
        zero.clone(),
    ];
    for tree in trees.iter() {
        let once = tree.get_cleaned();
        assert_eq!(once.get_cleaned(), once);
        assert_eq!(*Expr::trim(&Expr::trim(&tree.clone_to_heap())), once);
    }
}

#[test]
fn derivative_of_leaves() {
    assert_eq!(Expr::from_integer(7).get_derivative(0), Ok(Expr::from_integer(0)));
    assert_eq!(Expr::from_key(0).get_derivative(0), Ok(Expr::from_integer(1)));
    assert_eq!(Expr::from_key(1).get_derivative(0), Ok(Expr::from_integer(0)));
}

#[test]
fn derivative_of_a_tree_without_the_variable_is_zero() {
    let y = Expr::from_key(1);
    let f = Expr::unary_from(&y.mul(&y), UnaryFunction::Sin).div(&y);
    assert_eq!(f.get_derivative(0), Ok(Expr::from_integer(0)));
    // also for a power with an exponent that varies, but not with this variable
    let g = Expr::binary_from(&y, &y, BinaryFunction::Pow);
    assert_eq!(g.get_derivative(0), Ok(Expr::from_integer(0)));
}

#[test]
fn derivative_rules_of_binary_functions() {
    let x = Expr::from_key(0);
    let y = Expr::from_key(1);
    let one = Expr::from_integer(1);
    let two = Expr::from_integer(2);
    // (x + y)' = 1 + 0 = 1
    assert_eq!(x.add(&y).get_derivative(0), Ok(one.clone()));
    // (x + x)' = 1 + 1
    assert_eq!(x.add(&x).get_derivative(0), Ok(one.add(&one)));
    // (y - x)' = 0 - 1
    assert_eq!(y.sub(&x).get_derivative(0), Ok(Expr::from_integer(0).sub(&one)));
    // (x * y)' = 1 * y + x * 0 = y
    assert_eq!(x.mul(&y).get_derivative(0), Ok(y.clone()));
    // (x * x)' = 1 * x + x * 1 = x + x
    assert_eq!(x.mul(&x).get_derivative(0), Ok(x.add(&x)));
    // (y / x)' = (0 * x - y * 1) / x^2 = (0 - y) / x^2
    assert_eq!(
        y.div(&x).get_derivative(0),
        Ok(Expr::from_integer(0).sub(&y).div(&Expr::binary_from(&x, &two, BinaryFunction::Pow)))
    );
    // (x ^ y)' by x = 1 * (y * x^(y - 1)) = y * x^(y - 1)
    assert_eq!(
        Expr::binary_from(&x, &y, BinaryFunction::Pow).get_derivative(0),
        Ok(y.mul(&Expr::binary_from(&x, &y.sub(&one), BinaryFunction::Pow)))
    );
}

#[test]
fn derivative_rules_of_unary_functions() {
    let x = Expr::from_key(0);
    let two = Expr::from_integer(2);
    let square = x.mul(&x);
    let slope = x.add(&x);
    let unary = |tree: &Expr, function: UnaryFunction| Expr::unary_from(tree, function);
    assert_eq!(square.neg().get_derivative(0), Ok(slope.neg()));
    assert_eq!(
        unary(&square, UnaryFunction::Sin).get_derivative(0),
        Ok(slope.mul(&unary(&square, UnaryFunction::Cos)))
    );
    assert_eq!(
        unary(&square, UnaryFunction::Cos).get_derivative(0),
        Ok(slope.neg().mul(&unary(&square, UnaryFunction::Sin)))
    );
    assert_eq!(
        unary(&square, UnaryFunction::Exp).get_derivative(0),
        Ok(slope.mul(&unary(&square, UnaryFunction::Exp)))
    );
    assert_eq!(
        unary(&square, UnaryFunction::Sqrt).get_derivative(0),
        Ok(slope.div(&two.mul(&unary(&square, UnaryFunction::Sqrt))))
    );
    // sin(x)' = 1 * cos(x) = cos(x)
    assert_eq!(
        unary(&x, UnaryFunction::Sin).get_derivative(0),
        Ok(unary(&x, UnaryFunction::Cos))
    );
}

#[test]
fn derivative_refuses_an_exponent_that_varies() {
    let x = Expr::from_key(0);
    let two = Expr::from_integer(2);
    let power = Expr::binary_from(&two, &x, BinaryFunction::Pow);
    assert_eq!(power.get_derivative(0), Err(Error::UnsupportedDerivative));
    assert_eq!(power.neg().get_derivative(0), Err(Error::UnsupportedDerivative));
    assert_eq!(x.add(&power).get_derivative(0), Err(Error::UnsupportedDerivative));
    assert_eq!(power.mul(&x).get_derivative(0), Err(Error::UnsupportedDerivative));
    assert_eq!(
        Expr::binary_from(&power, &two, BinaryFunction::Pow).get_derivative(0),
        Err(Error::UnsupportedDerivative)
    );
    assert_eq!(
        Expr::binary_from(&x, &x, BinaryFunction::Pow).get_derivative(0),
        Err(Error::UnsupportedDerivative)
    );
    assert!(power.get_derivative(1).is_ok());
}

#[test]
fn derivative_of_a_polynomial_and_a_quotient() {
    // f = 2*x*x + 5/x at x = 5
    let values = vec![Numeric::from_integer(5)];
    let x = Expr::from_key(0);
    let two = Expr::from_integer(2);
    let five = Expr::from_integer(5);
    let f = two.mul(&x).mul(&x).add(&five.div(&x));
    assert_eq!(f.eval(&values), Ok(Numeric::from_integer(51)));
    let slope = f.get_derivative(0).unwrap();
    // (2 * x + 2 * x) + (0 - 5) / x^2
    let expected = two.mul(&x).add(&two.mul(&x)).add(
        &Expr::from_integer(0).sub(&five).div(&Expr::binary_from(&x, &two, BinaryFunction::Pow)),
    );
    assert_eq!(slope, expected);
    // over the integers -5 / 25 is 0
    assert_eq!(slope.eval(&values), Ok(Numeric::from_integer(20)));
    assert_eq!(slope.get_cleaned(), slope);
}
