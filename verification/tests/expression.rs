use algebra::add::Add;
use algebra::constant::Constant;
use algebra::expression::{clone_all, Expression};
use algebra::multiply::Multiply;
use algebra::parser::parse_expression;
use algebra::text::{decimal_text, spaces_text};
use algebra::variable::Variable;

fn constant(value: i64) -> Expression {
    Expression::Constant(Constant::new(value))
}

fn variable(name: &str) -> Expression {
    Expression::Variable(Variable::new(name))
}

#[test]
fn constant_is_its_own_value_and_simplified_form() {
    let c = Constant::new(-7);
    assert_eq!(c.value, -7);
    assert!(matches!(c.simplify(), Expression::Constant(c) if c.value == -7));
    assert!(matches!(c.eval(), Ok(Expression::Constant(c)) if c.value == -7));
    assert!(matches!(constant(-7).eval(), Ok(Expression::Constant(c)) if c.value == -7));
    assert!(matches!(constant(-7).checked_simplify(), Some(Expression::Constant(c)) if c.value == -7));
    assert_eq!(c.to_typist(), "-7");
    assert_eq!(c.debug(3), "   Constant { value: -7 }\n");
    assert_eq!(constant(0).debug(0), "Constant { value: 0 }\n");
}

#[test]
fn variable_is_its_own_value_and_simplified_form() {
    let v = Variable::new("x");
    assert_eq!(v.name, "x");
    assert!(matches!(v.simplify(), Expression::Variable(v) if v.name == "x"));
    assert!(matches!(v.eval(), Ok(Expression::Variable(v)) if v.name == "x"));
    assert!(matches!(variable("x").eval(), Ok(Expression::Variable(v)) if v.name == "x"));
    assert_eq!(v.to_typist(), "x");
    assert_eq!(v.debug(1), " Variable { name: x }\n");
    assert_eq!(Variable::new("speed").to_typist(), "speed");
}

#[test]
fn decimal_text_of_the_extremes() {
    assert_eq!(decimal_text(0), "0");
    assert_eq!(decimal_text(9), "9");
    assert_eq!(decimal_text(10), "10");
    assert_eq!(decimal_text(-1), "-1");
    assert_eq!(decimal_text(1234567890), "1234567890");
    assert_eq!(decimal_text(i64::MAX), "9223372036854775807");
    assert_eq!(decimal_text(i64::MIN), "-9223372036854775808");
    for value in [-1000, -99, -10, 5, 42, 100, 1001, 987654321] {
        assert_eq!(decimal_text(value), value.to_string());
    }
}

#[test]
fn spaces_text_has_the_length_asked_for() {
    assert_eq!(spaces_text(0), "");
    assert_eq!(spaces_text(1), " ");
    assert_eq!(spaces_text(5), "     ");
}

#[test]
fn clone_is_a_deep_copy() {
    let tree = Expression::Add(Add::new(vec![
        constant(1),
        Expression::Multiply(Multiply::new(vec![variable("x"), constant(2)])),
    ]));
    let copy = tree.clone();
    assert_eq!(copy.debug(0), tree.debug(0));
    let copies = clone_all(&vec![tree, constant(3)]);
    assert_eq!(copies.len(), 2);
    assert_eq!(copies[0].to_typist(), "1 + (x 2)");
    assert_eq!(copies[1].to_typist(), "3");
}

#[test]
fn simplify_leaves_its_argument_as_it_was() {
    let tree = Expression::Add(Add::new(vec![constant(1), constant(2)]));
    let before = tree.debug(0);
    let simplified = tree.simplify();
    assert_eq!(tree.debug(0), before);
    assert_eq!(simplified.to_typist(), "3");
}

fn simplified_twice_is_simplified_once(input: &str) {
    let (_, parsed) = parse_expression(input).unwrap();
    let once = parsed.simplify();
    let twice = once.simplify();
    assert_eq!(twice.debug(0), once.debug(0), "{:?}", input);
    assert_eq!(twice.to_typist(), once.to_typist(), "{:?}", input);
}

#[test]
fn simplify_is_idempotent() {
    for input in [
        "3",
        "x",
        "1+0+2",
        "x+0",
        "x-x",
        "2*3*4",
        "1*x",
        "x*1*y*1",
        "4*(2+3)",
        "(1+2)*(3+4)*x",
        "x*(y+0)*(1*z)",
        "3-2",
        "x*0+y",
        "1*(1*(1*1))",
        "(x+(y+(z+1)))+2",
        "2*(3*(x*(4*1)))",
        "0*x+0*y+(1-1)",
    ] {
        simplified_twice_is_simplified_once(input);
    }
}

#[test]
fn simplify_of_a_nested_sum_is_that_of_the_flat_sum() {
    let nested = Add::new(vec![
        variable("x"),
        Expression::Add(Add::new(vec![constant(2), variable("y")])),
        constant(3),
    ]);
    let flat = Add::new(vec![variable("x"), constant(2), variable("y"), constant(3)]);
    assert_eq!(nested.simplify().debug(0), flat.simplify().debug(0));
    assert_eq!(nested.simplify().to_typist(), "x + y + 5");
}

#[test]
fn simplified_sum_holds_a_constant_in_its_last_place_only() {
    for input in ["x+0", "0+x+0+y", "1+x+2", "x*1+0+(0+y)+3-3", "0", "0+0"] {
        let (_, parsed) = parse_expression(input).unwrap();
        match parsed.simplify() {
            Expression::Add(sum) => {
                let (last, others) = sum.ops.split_last().unwrap();
                assert!(matches!(last, Expression::Constant(_)), "{:?}", input);
                for other in others {
                    assert!(!matches!(other, Expression::Constant(_)), "{:?}", input);
                }
            }
            Expression::Constant(c) => assert_eq!((input, c.value), ("0", 0)),
            other => panic!("{:?}: {:?}", input, other),
        }
    }
}
