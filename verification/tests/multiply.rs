use algebra::add::Add;
use algebra::constant::Constant;
use algebra::error::EvalError;
use algebra::expression::Expression;
use algebra::multiply::Multiply;
use algebra::variable::Variable;

fn constant(value: i64) -> Expression {
    Expression::Constant(Constant::new(value))
}

fn variable(name: &str) -> Expression {
    Expression::Variable(Variable::new(name))
}

#[test]
fn multiply_simplify_with_zero_and_one() {
    let multiply = Multiply::new(vec![constant(1), constant(0), constant(2)]);
    let simplified = multiply.simplify();
    if let Expression::Constant(constant) = &simplified {
        assert_eq!(constant.value, 0);
    } else {
        panic!("Expected Constant");
    }
}

#[test]
fn multiply_simplify_with_no_zero_or_one() {
    let multiply = Multiply::new(vec![constant(2), constant(3), constant(4)]);
    let simplified = multiply.simplify();
    if let Expression::Constant(constant) = &simplified {
        assert_eq!(constant.value, 24);
    } else {
        panic!("Expected Constant");
    }
}

#[test]
fn multiply_simplify_with_nested_multiply() {
    let nested_multiply = Multiply::new(vec![constant(2), constant(3)]);
    let multiply = Multiply::new(vec![constant(4), Expression::Multiply(nested_multiply)]);
    let simplified = multiply.simplify();
    if let Expression::Constant(constant) = &simplified {
        assert_eq!(constant.value, 24);
    } else {
        panic!("Expected Constant");
    }
}

// A sum of constants simplifies to a sum of one constant, never to a bare
// constant, so a product with such a sum among its operands stays a product.
#[test]
fn multiply_simplify_with_nested_add() {
    let nested_add = Add::new(vec![constant(2), constant(3)]);
    let multiply = Multiply::new(vec![constant(4), Expression::Add(nested_add)]);
    let simplified = multiply.simplify();
    if let Expression::Multiply(product) = &simplified {
        assert_eq!(product.ops.len(), 2);
        assert!(matches!(&product.ops[0], Expression::Constant(c) if c.value == 4));
        match &product.ops[1] {
            Expression::Add(sum) => {
                assert_eq!(sum.ops.len(), 1);
                assert!(matches!(&sum.ops[0], Expression::Constant(c) if c.value == 5));
            }
            other => panic!("Expected Add, found {:?}", other),
        }
    } else {
        panic!("Expected Multiply, found {:?}", simplified);
    }
    assert_eq!(simplified.to_typist(), "4 (5)");
}

#[test]
fn multiply_nested_and_flat_simplify_alike() {
    let nested = Multiply::new(vec![
        constant(4),
        Expression::Multiply(Multiply::new(vec![constant(2), constant(3)])),
    ]);
    let flat = Multiply::new(vec![constant(4), constant(2), constant(3)]);
    assert_eq!(nested.simplify().debug(0), flat.simplify().debug(0));
    let nested = Multiply::new(vec![
        variable("x"),
        Expression::Multiply(Multiply::new(vec![constant(1), variable("y")])),
        constant(5),
    ]);
    let flat = Multiply::new(vec![variable("x"), constant(1), variable("y"), constant(5)]);
    assert_eq!(nested.simplify().debug(0), flat.simplify().debug(0));
    assert_eq!(nested.simplify().to_typist(), "x y 5");
}

#[test]
fn multiply_flatten_inlines_products_at_every_depth() {
    let innermost = Multiply::new(vec![variable("y"), constant(2)]);
    let inner = Multiply::new(vec![constant(1), Expression::Multiply(innermost)]);
    let sum = Add::new(vec![variable("x"), Expression::Multiply(Multiply::new(vec![constant(7)]))]);
    let multiply = Multiply::new(vec![
        Expression::Multiply(inner),
        Expression::Add(sum),
        variable("z"),
    ]);
    let flat = multiply.flatten();
    let texts: Vec<String> = flat.iter().map(|e| e.to_typist()).collect();
    assert_eq!(texts, vec!["1", "y", "2", "x + (7)", "z"]);
}

#[test]
fn multiply_zero_at_any_depth_gives_zero() {
    let deep = Multiply::new(vec![
        variable("x"),
        Expression::Multiply(Multiply::new(vec![
            variable("y"),
            Expression::Multiply(Multiply::new(vec![constant(3), constant(0)])),
        ])),
    ]);
    assert!(matches!(deep.simplify(), Expression::Constant(c) if c.value == 0));
}

#[test]
fn multiply_zero_wins_before_the_other_operands_are_simplified() {
    let cannot_fold = Add::new(vec![constant(i64::MAX), constant(i64::MAX)]);
    assert!(cannot_fold.checked_simplify().is_none());
    let multiply = Multiply::new(vec![Expression::Add(cannot_fold), constant(0)]);
    assert!(matches!(multiply.checked_simplify(), Some(Expression::Constant(c)) if c.value == 0));
}

#[test]
fn multiply_zero_inside_a_sum_is_no_zero_factor() {
    let multiply = Multiply::new(vec![
        variable("x"),
        Expression::Add(Add::new(vec![constant(0)])),
    ]);
    assert_eq!(multiply.simplify().to_typist(), "x (0)");
}

#[test]
fn multiply_drops_ones_and_keeps_the_rest_in_order() {
    let multiply = Multiply::new(vec![
        constant(1),
        variable("x"),
        constant(2),
        constant(1),
        variable("y"),
        constant(3),
    ]);
    let simplified = multiply.simplify();
    assert_eq!(simplified.to_typist(), "x 2 y 3");
    assert!(matches!(&simplified, Expression::Multiply(m) if m.ops.len() == 4));
}

#[test]
fn multiply_of_ones_or_of_nothing_is_one() {
    assert!(matches!(Multiply::new(vec![]).simplify(), Expression::Constant(c) if c.value == 1));
    let ones = Multiply::new(vec![constant(1), constant(1)]);
    assert!(matches!(ones.simplify(), Expression::Constant(c) if c.value == 1));
}

#[test]
fn multiply_of_one_variable_stays_a_product() {
    let simplified = Multiply::new(vec![constant(1), variable("x")]).simplify();
    match simplified {
        Expression::Multiply(product) => {
            assert_eq!(product.ops.len(), 1);
            assert!(matches!(&product.ops[0], Expression::Variable(v) if v.name == "x"));
        }
        other => panic!("expected a product, found {:?}", other),
    }
}

#[test]
fn multiply_checked_simplify_is_none_where_the_product_does_not_fit() {
    let multiply = Multiply::new(vec![constant(i64::MAX), constant(2)]);
    assert!(multiply.checked_simplify().is_none());
    let multiply = Multiply::new(vec![constant(1 << 32), constant(1 << 31)]);
    assert!(multiply.checked_simplify().is_none());
    let multiply = Multiply::new(vec![constant(i64::MIN), constant(-1)]);
    assert!(multiply.checked_simplify().is_none());
}

#[test]
fn multiply_checked_simplify_reaches_the_smallest_constant() {
    let multiply = Multiply::new(vec![constant(1 << 32), constant(1 << 31), constant(-1)]);
    assert!(
        matches!(multiply.checked_simplify(), Some(Expression::Constant(c)) if c.value == i64::MIN)
    );
    let multiply = Multiply::new(vec![constant(-1), constant(1 << 62), constant(2)]);
    assert!(
        matches!(multiply.checked_simplify(), Some(Expression::Constant(c)) if c.value == i64::MIN)
    );
}

#[test]
fn multiply_does_not_fold_constants_beside_a_variable() {
    let multiply = Multiply::new(vec![constant(i64::MAX), constant(2), variable("x")]);
    assert_eq!(multiply.checked_simplify().unwrap().to_typist(), "9223372036854775807 2 x");
}

#[test]
fn multiply_eval_is_not_implemented() {
    let multiply = Multiply::new(vec![constant(1), constant(2)]);
    assert_eq!(multiply.eval().err(), Some(EvalError::NotImplemented));
    assert_eq!(Expression::Multiply(multiply).eval().err(), Some(EvalError::NotImplemented));
}

#[test]
fn multiply_to_typist_puts_nested_nodes_in_parentheses() {
    let multiply = Multiply::new(vec![
        constant(3),
        Expression::Add(Add::new(vec![constant(2), variable("x")])),
        Expression::Multiply(Multiply::new(vec![variable("y"), constant(-4)])),
    ]);
    assert_eq!(multiply.to_typist(), "3 (2 + x) (y -4)");
    assert_eq!(Multiply::new(vec![]).to_typist(), "");
}

#[test]
fn multiply_debug_is_an_indented_tree() {
    let multiply = Multiply::new(vec![
        variable("z"),
        Expression::Add(Add::new(vec![constant(10)])),
    ]);
    let expected = "Multiply {\n  Variable { name: z }\n  Add {\n    Constant { value: 10 }\n  }\n}\n";
    assert_eq!(multiply.debug(0), expected);
    assert_eq!(Expression::Multiply(multiply.clone()).debug(0), expected);
}
