use algebra::add::Add;
use algebra::constant::Constant;
use algebra::expression::Expression;
use algebra::multiply::Multiply;
use algebra::variable::Variable;

fn constant(value: i64) -> Expression {
    Expression::Constant(Constant::new(value))
}

fn variable(name: &str) -> Expression {
    Expression::Variable(Variable::new(name))
}

#[test]
fn add_simplify_with_zero() {
    let add = Add::new(vec![constant(1), constant(0), constant(2)]);
    let simplified = add.simplify();
    if let Expression::Add(simplified_add) = &simplified {
        match simplified_add.ops.first().unwrap() {
            Expression::Constant(c) => assert_eq!(c.value, 3),
            other => panic!("Expected Constant, found {:?}", other),
        }
    } else {
        panic!("Expected Constant, found {:?}", simplified);
    }
}

#[test]
fn add_simplify_with_no_zero() {
    let add = Add::new(vec![constant(1), constant(2), constant(3)]);
    let simplified = add.simplify();
    if let Expression::Add(simplified_add) = &simplified {
        match simplified_add.ops.first().unwrap() {
            Expression::Constant(c) => assert_eq!(c.value, 6),
            other => panic!("Expected Constant, found {:?}", other),
        }
    } else {
        panic!("Expected Constant, found {:?}", simplified);
    }
}

#[test]
fn add_simplify_with_nested_add() {
    let nested_add = Add::new(vec![constant(1), constant(2)]);
    let add = Add::new(vec![constant(3), Expression::Add(nested_add)]);
    let simplified = add.simplify();
    if let Expression::Add(simplified_add) = &simplified {
        match simplified_add.ops.first().unwrap() {
            Expression::Constant(c) => assert_eq!(c.value, 6),
            other => panic!("Expected Constant, found {:?}", other),
        }
    } else {
        panic!("Expected Constant, found {:?}", simplified);
    }
}

#[test]
fn add_simplify_with_negative_constant() {
    let add = Add::new(vec![constant(5), constant(-3)]);
    let simplified = add.simplify();
    assert_eq!(simplified.to_typist(), "2");
}

#[test]
fn add_of_constants_stays_a_sum_of_one_operand() {
    let simplified = Add::new(vec![constant(1), constant(0), constant(2)]).simplify();
    match simplified {
        Expression::Add(sum) => {
            assert_eq!(sum.ops.len(), 1);
            assert!(matches!(&sum.ops[0], Expression::Constant(c) if c.value == 3));
        }
        other => panic!("expected a sum, found {:?}", other),
    }
}

#[test]
fn add_flatten_inlines_sums_at_every_depth() {
    let innermost = Add::new(vec![variable("y"), constant(2)]);
    let inner = Add::new(vec![constant(1), Expression::Add(innermost), variable("z")]);
    let product = Multiply::new(vec![variable("x"), Expression::Add(Add::new(vec![constant(7)]))]);
    let add = Add::new(vec![
        variable("x"),
        Expression::Add(inner),
        Expression::Multiply(product),
    ]);
    let flat = add.flatten();
    let texts: Vec<String> = flat.iter().map(|e| e.to_typist()).collect();
    assert_eq!(texts, vec!["x", "1", "y", "2", "z", "x (7)"]);
    assert!(matches!(&flat[5], Expression::Multiply(m) if m.ops.len() == 2));
}

#[test]
fn add_keeps_the_other_operands_in_order_and_puts_the_constant_last() {
    let add = Add::new(vec![
        constant(4),
        variable("y"),
        constant(0),
        Expression::Add(Add::new(vec![variable("x"), constant(-1)])),
        variable("x"),
    ]);
    let simplified = add.simplify();
    assert_eq!(simplified.to_typist(), "y + x + x + 3");
    match simplified {
        Expression::Add(sum) => {
            assert_eq!(sum.ops.len(), 4);
            assert!(matches!(&sum.ops[3], Expression::Constant(c) if c.value == 3));
        }
        other => panic!("expected a sum, found {:?}", other),
    }
}

#[test]
fn add_keeps_a_zero_sum_as_its_last_operand() {
    let simplified = Add::new(vec![variable("x"), constant(2), constant(-2)]).simplify();
    match simplified {
        Expression::Add(sum) => {
            assert_eq!(sum.ops.len(), 2);
            assert!(matches!(&sum.ops[0], Expression::Variable(v) if v.name == "x"));
            assert!(matches!(&sum.ops[1], Expression::Constant(c) if c.value == 0));
        }
        other => panic!("expected a sum, found {:?}", other),
    }
}

#[test]
fn add_without_operands_is_the_sum_of_zero() {
    let simplified = Add::new(vec![]).simplify();
    match simplified {
        Expression::Add(sum) => {
            assert_eq!(sum.ops.len(), 1);
            assert!(matches!(&sum.ops[0], Expression::Constant(c) if c.value == 0));
        }
        other => panic!("expected a sum, found {:?}", other),
    }
}

#[test]
fn add_folds_the_constant_of_a_simplified_product() {
    let product = Multiply::new(vec![constant(2), constant(3)]);
    let simplified = Add::new(vec![Expression::Multiply(product), constant(1)]).simplify();
    assert_eq!(simplified.to_typist(), "7");
}

#[test]
fn add_checked_simplify_is_none_where_the_sum_does_not_fit() {
    let add = Add::new(vec![constant(i64::MAX), constant(1)]);
    assert!(add.checked_simplify().is_none());
    let add = Add::new(vec![constant(i64::MIN), constant(-1)]);
    assert!(add.checked_simplify().is_none());
}

#[test]
fn add_checked_simplify_looks_at_the_whole_sum_only() {
    let add = Add::new(vec![constant(i64::MAX), constant(i64::MAX), constant(i64::MIN)]);
    let simplified = add.checked_simplify().unwrap();
    assert_eq!(simplified.to_typist(), "9223372036854775806");
    let add = Add::new(vec![constant(i64::MAX), constant(1), constant(-1)]);
    assert_eq!(add.checked_simplify().unwrap().to_typist(), "9223372036854775807");
}

#[test]
fn add_checked_simplify_is_none_where_an_operand_cannot_be_folded() {
    let product = Multiply::new(vec![constant(i64::MAX), constant(2)]);
    let add = Add::new(vec![Expression::Multiply(product), constant(-i64::MAX)]);
    assert!(add.checked_simplify().is_none());
}

#[test]
fn add_eval_is_not_implemented() {
    let add = Add::new(vec![constant(1), constant(2)]);
    assert_eq!(add.eval().err(), Some(algebra::error::EvalError::NotImplemented));
    assert_eq!(
        Expression::Add(add).eval().err(),
        Some(algebra::error::EvalError::NotImplemented)
    );
}

#[test]
fn add_to_typist_puts_nested_nodes_in_parentheses() {
    let add = Add::new(vec![
        constant(3),
        Expression::Multiply(Multiply::new(vec![constant(2), variable("x")])),
        Expression::Add(Add::new(vec![variable("y"), constant(-4)])),
    ]);
    assert_eq!(add.to_typist(), "3 + (2 x) + (y + -4)");
    assert_eq!(Add::new(vec![]).to_typist(), "");
    assert_eq!(Add::new(vec![variable("z")]).to_typist(), "z");
}

#[test]
fn add_debug_is_an_indented_tree() {
    let add = Add::new(vec![
        constant(3),
        Expression::Multiply(Multiply::new(vec![variable("x"), constant(-2)])),
    ]);
    let expected = "  Add {\n    Constant { value: 3 }\n    Multiply {\n      Variable { name: x }\n      Constant { value: -2 }\n    }\n  }\n";
    assert_eq!(add.debug(2), expected);
    assert_eq!(Add::new(vec![]).debug(0), "Add {\n}\n");
}

#[test]
fn add_clone_is_a_deep_copy() {
    let add = Add::new(vec![constant(1), Expression::Add(Add::new(vec![variable("x")]))]);
    let copy = add.clone();
    assert_eq!(copy.debug(0), add.debug(0));
    assert_eq!(copy.ops.len(), 2);
}
