use algebra::error::ParseError;
use algebra::expression::Expression;
use algebra::parser::{
    parse_expression, parse_factor, parse_number, parse_sum, parse_term, parse_variable,
    skip_spaces,
};

fn chars(text: &str) -> Vec<char> {
    text.chars().collect()
}

#[test]
fn parse_single_number() {
    let input = "3";
    let (_, parsed) = parse_expression(input).unwrap();
    if let Expression::Constant(constant) = &parsed {
        assert_eq!(constant.value, 3);
    } else {
        panic!("Expected Constant");
    }
}

#[test]
fn parse_addition_expression() {
    let input = "3+2";
    let (_, parsed) = parse_expression(input).unwrap();
    if let Expression::Add(add) = &parsed {
        assert_eq!(add.ops.len(), 2);
    } else {
        panic!("Expected Add");
    }
}

#[test]
fn parse_multiplication_expression() {
    let input = "3*2";
    let (_, parsed) = parse_expression(input).unwrap();
    if let Expression::Multiply(multiply) = &parsed {
        assert_eq!(multiply.ops.len(), 2);
    } else {
        panic!("Expected Multiply");
    }
}

#[test]
fn parse_complex_expression() {
    let input = "3+2*4";
    let (_, parsed) = parse_expression(input).unwrap();
    if let Expression::Add(add) = &parsed {
        assert_eq!(add.ops.len(), 2);
        if let Expression::Multiply(multiply) = &add.ops[1] {
            assert_eq!(multiply.ops.len(), 2);
        } else {
            panic!("Expected Multiply in Add");
        }
    } else {
        panic!("Expected Add");
    }
}

#[test]
fn parse_invalid_expression() {
    let input = "3+*4";
    let result = parse_expression(input);
    assert!(result.is_err());
}

#[test]
fn parse_variable_expression() {
    let input = "x";
    let (_, parsed) = parse_expression(input).unwrap();
    if let Expression::Variable(variable) = &parsed {
        assert_eq!(variable.name, "x");
    } else {
        panic!("Expected Variable");
    }
}

#[test]
fn parse_subtraction_expression() {
    let input = "3-2";
    let (_, parsed) = parse_expression(input)
        .unwrap_or_else(|_| panic!("Failed to parse expression '{}'", input));

    if let Expression::Add(add) = &parsed {
        assert_eq!(
            add.ops.len(),
            2,
            "Expected Add operation to have 2 operands, found {}",
            add.ops.len()
        );

        if let Expression::Constant(constant) = &add.ops[0] {
            assert_eq!(
                constant.value, 3,
                "Expected first operand to be 3, found {}",
                constant.value
            );
        } else {
            panic!("Expected first operand to be Constant(3), found {:?}", add.ops[0]);
        }

        if let Expression::Add(inner_add) = &add.ops[1] {
            assert_eq!(
                inner_add.ops.len(),
                2,
                "Expected inner Add operation to have 2 operands for negation, found {}",
                inner_add.ops.len()
            );

            if let Expression::Constant(constant) = &inner_add.ops[0] {
                assert_eq!(
                    constant.value, 0,
                    "Expected first operand of inner Add to be 0, found {}",
                    constant.value
                );
            } else {
                panic!(
                    "Expected first operand of inner Add to be Constant(0), found {:?}",
                    inner_add.ops[0]
                );
            }

            if let Expression::Multiply(multiply) = &inner_add.ops[1] {
                assert_eq!(
                    multiply.ops.len(),
                    2,
                    "Expected Multiply operation to have 2 operands for negation, found {}",
                    multiply.ops.len()
                );

                if let Expression::Constant(constant) = &multiply.ops[0] {
                    assert_eq!(
                        constant.value, -1,
                        "Expected first operand of Multiply to be -1 for negation, found {}",
                        constant.value
                    );
                } else {
                    panic!(
                        "Expected first operand of Multiply to be Constant(-1), found {:?}",
                        multiply.ops[0]
                    );
                }

                if let Expression::Constant(constant) = &multiply.ops[1] {
                    assert_eq!(
                        constant.value, 2,
                        "Expected second operand of Multiply to be 2, found {}",
                        constant.value
                    );
                } else {
                    panic!(
                        "Expected second operand of Multiply to be Constant(2), found {:?}",
                        multiply.ops[1]
                    );
                }
            } else {
                panic!(
                    "Expected second operand of inner Add to be Multiply(-1, 2), found {:?}",
                    inner_add.ops[1]
                );
            }
        } else {
            panic!("Expected second operand of top-level Add to be an inner Add operation representing negation, found {:?}", add.ops[1]);
        }
    } else {
        panic!("Expected parsed expression to be an Add operation, found {:?}", parsed);
    }
}

#[test]
fn parse_expression_with_whitespace() {
    let input = " 3 + 2 * 4 ";
    let (_, parsed) = parse_expression(input).unwrap();
    if let Expression::Add(add) = &parsed {
        assert_eq!(add.ops.len(), 2);
        if let Expression::Multiply(multiply) = &add.ops[1] {
            assert_eq!(multiply.ops.len(), 2);
        } else {
            panic!("Expected Multiply");
        }
    } else {
        panic!("Expected Add");
    }
}

fn tree(input: &str) -> String {
    let (rest, parsed) = parse_expression(input).unwrap();
    assert_eq!(rest, "");
    parsed.debug(0)
}

#[test]
fn parse_literal_round_trip() {
    let (_, parsed) = parse_expression("3").unwrap();
    assert_eq!(parsed.simplify().to_typist(), "3");
}

#[test]
fn parse_variable_round_trip() {
    let (_, parsed) = parse_expression("x").unwrap();
    assert_eq!(parsed.simplify().to_typist(), "x");
    for name in ["x", "y", "z"] {
        let (_, parsed) = parse_expression(name).unwrap();
        assert!(matches!(&parsed, Expression::Variable(v) if v.name == name));
    }
}

#[test]
fn parse_malformed_input_is_a_syntax_error() {
    for input in [
        "3+*4", "", " ", "-3", "+3", "3+", "3*", "3-", "*", "(", ")", "()", "(3", "3)", "(3+2",
        "3 4", "1 2 + 3", "x y", "xy", "3x", "w", "a", "3.5", "3/4", "3^2", "2**3", "3+-2",
        "(3+)2", "((3)", "3 + 2 * ", "é", "3+é", "１",
    ] {
        assert_eq!(parse_expression(input).err(), Some(ParseError::SyntaxError), "{:?}", input);
    }
}

#[test]
fn parse_number_too_large_is_its_own_error() {
    let (_, parsed) = parse_expression("9223372036854775807").unwrap();
    assert!(matches!(&parsed, Expression::Constant(c) if c.value == i64::MAX));
    for input in [
        "9223372036854775808",
        "18446744073709551616",
        "100000000000000000000000000000000000000000",
        "1 + 9223372036854775808 * x",
        "(99999999999999999999)",
    ] {
        assert_eq!(parse_expression(input).err(), Some(ParseError::NumberTooLarge), "{:?}", input);
    }
}

#[test]
fn parse_syntax_error_comes_before_number_too_large() {
    for input in ["9223372036854775808 +", "99999999999999999999 x", "(99999999999999999999"] {
        assert_eq!(parse_expression(input).err(), Some(ParseError::SyntaxError), "{:?}", input);
    }
}

#[test]
fn parse_leading_zeros_are_digits() {
    let (_, parsed) = parse_expression("007").unwrap();
    assert!(matches!(&parsed, Expression::Constant(c) if c.value == 7));
    let (_, parsed) = parse_expression("0000000000000000000000000000000000012").unwrap();
    assert!(matches!(&parsed, Expression::Constant(c) if c.value == 12));
    let (_, parsed) = parse_expression("0").unwrap();
    assert!(matches!(&parsed, Expression::Constant(c) if c.value == 0));
}

#[test]
fn parse_operators_associate_to_the_left() {
    assert_eq!(
        tree("1+2+3"),
        "Add {\n  Add {\n    Constant { value: 1 }\n    Constant { value: 2 }\n  }\n  Constant { value: 3 }\n}\n"
    );
    assert_eq!(
        tree("1*2*3"),
        "Multiply {\n  Multiply {\n    Constant { value: 1 }\n    Constant { value: 2 }\n  }\n  Constant { value: 3 }\n}\n"
    );
}

#[test]
fn parse_multiplication_binds_tighter_than_addition() {
    assert_eq!(
        tree("3+2*4"),
        "Add {\n  Constant { value: 3 }\n  Multiply {\n    Constant { value: 2 }\n    Constant { value: 4 }\n  }\n}\n"
    );
    assert_eq!(
        tree("3*2+4"),
        "Add {\n  Multiply {\n    Constant { value: 3 }\n    Constant { value: 2 }\n  }\n  Constant { value: 4 }\n}\n"
    );
}

#[test]
fn parse_subtraction_is_a_sum_with_a_negation() {
    assert_eq!(
        tree("3-2"),
        "Add {\n  Constant { value: 3 }\n  Add {\n    Constant { value: 0 }\n    Multiply {\n      Constant { value: -1 }\n      Constant { value: 2 }\n    }\n  }\n}\n"
    );
    let (_, parsed) = parse_expression("x-2*y-1").unwrap();
    assert_eq!(parsed.to_typist(), "(x + (0 + (-1 (2 y)))) + (0 + (-1 1))");
    let (_, parsed) = parse_expression("7-2-1").unwrap();
    assert_eq!(parsed.simplify().to_typist(), "4");
}

#[test]
fn parse_parentheses_group() {
    assert_eq!(
        tree("(3+2)*4"),
        "Multiply {\n  Add {\n    Constant { value: 3 }\n    Constant { value: 2 }\n  }\n  Constant { value: 4 }\n}\n"
    );
    assert_eq!(tree("((x))"), "Variable { name: x }\n");
    assert_eq!(tree("(3)"), "Constant { value: 3 }\n");
    let (_, parsed) = parse_expression("2*(x+(y*(3-z)))").unwrap();
    assert_eq!(parsed.to_typist(), "2 (x + (y (3 + (0 + (-1 z)))))");
}

#[test]
fn parse_white_space_may_stand_around_every_token() {
    let plain = tree("(3+x)*2-y");
    assert_eq!(tree(" ( 3 + x ) * 2 - y "), plain);
    assert_eq!(tree("\t(\n3\r\n+ x)\t*2   -y\n"), plain);
    assert_eq!(parse_expression("1 2").err(), Some(ParseError::SyntaxError));
    assert_eq!(parse_expression("3\u{a0}+ 2").err(), Some(ParseError::SyntaxError));
}

#[test]
fn parse_then_simplify() {
    let (_, parsed) = parse_expression("1*x*1 + 2*3 + 0 + (4 + y)").unwrap();
    assert_eq!(parsed.simplify().to_typist(), "(x) + y + 10");
    let (_, parsed) = parse_expression("x*0*(y+1)").unwrap();
    assert_eq!(parsed.simplify().to_typist(), "0");
    let (_, parsed) = parse_expression("9223372036854775807 + 1").unwrap();
    assert!(parsed.checked_simplify().is_none());
}

#[test]
fn skip_spaces_stops_at_the_first_other_character() {
    let input = chars(" \t\r\n x ");
    assert_eq!(skip_spaces(&input, 0), 5);
    assert_eq!(skip_spaces(&input, 5), 5);
    assert_eq!(skip_spaces(&input, 6), 7);
    assert_eq!(skip_spaces(&input, 7), 7);
}

#[test]
fn parsers_read_nothing_beyond_the_end_of_the_text() {
    let input = chars("x+1");
    for start in [3, 4, 100] {
        assert_eq!(skip_spaces(&input, start), start);
        assert!(parse_variable(&input, start).is_none());
        assert!(parse_number(&input, start).is_none());
        assert!(parse_factor(&input, start).is_none());
        assert!(parse_term(&input, start).is_none());
        assert!(parse_sum(&input, start).is_none());
    }
    assert!(parse_sum(&[], 0).is_none());
}

#[test]
fn parse_variable_reads_one_name() {
    let input = chars("xyzw");
    for (at, name) in [(0, "x"), (1, "y"), (2, "z")] {
        let found = parse_variable(&input, at).unwrap();
        assert!(matches!(&found.expression, Expression::Variable(v) if v.name == name));
        assert_eq!(found.next, at + 1);
        assert!(found.exact);
    }
    assert!(parse_variable(&input, 3).is_none());
    assert!(parse_variable(&input, 4).is_none());
}

#[test]
fn parse_number_reads_all_the_digits() {
    let input = chars("120+34 ");
    let found = parse_number(&input, 0).unwrap();
    assert!(matches!(&found.expression, Expression::Constant(c) if c.value == 120));
    assert_eq!((found.next, found.exact), (3, true));
    let found = parse_number(&input, 1).unwrap();
    assert!(matches!(&found.expression, Expression::Constant(c) if c.value == 20));
    let found = parse_number(&input, 4).unwrap();
    assert!(matches!(&found.expression, Expression::Constant(c) if c.value == 34));
    assert_eq!((found.next, found.exact), (6, true));
    assert!(parse_number(&input, 3).is_none());
    assert!(parse_number(&input, 6).is_none());
    assert!(parse_number(&input, 7).is_none());
    let input = chars("9223372036854775808");
    let found = parse_number(&input, 0).unwrap();
    assert_eq!((found.next, found.exact), (19, false));
    let found = parse_number(&input, 1).unwrap();
    assert!(matches!(&found.expression, Expression::Constant(c) if c.value == 223372036854775808));
    assert_eq!((found.next, found.exact), (19, true));
}

#[test]
fn parse_factor_takes_the_white_space_around_it() {
    let input = chars("  ( 1 + x )  * 3");
    let found = parse_factor(&input, 0).unwrap();
    assert_eq!(found.expression.to_typist(), "1 + x");
    assert_eq!(found.next, 13);
    let found = parse_factor(&input, 3).unwrap();
    assert_eq!((found.expression.to_typist(), found.next), ("1".to_string(), 6));
    let found = parse_factor(&input, 14).unwrap();
    assert_eq!((found.expression.to_typist(), found.next), ("3".to_string(), 16));
    assert!(parse_factor(&input, 6).is_none());
    assert!(parse_factor(&input, 13).is_none());
    assert!(parse_factor(&input, input.len()).is_none());
}

#[test]
fn parse_term_and_sum_stop_where_no_operator_follows() {
    let input = chars("2*x*3+4*y)z");
    let found = parse_term(&input, 0).unwrap();
    assert_eq!((found.expression.to_typist(), found.next), ("(2 x) 3".to_string(), 5));
    let found = parse_sum(&input, 0).unwrap();
    assert_eq!((found.expression.to_typist(), found.next), ("((2 x) 3) + (4 y)".to_string(), 9));
    let found = parse_sum(&input, 6).unwrap();
    assert_eq!((found.expression.to_typist(), found.next), ("4 y".to_string(), 9));
    assert!(parse_term(&input, 5).is_none());
    assert!(parse_sum(&chars("2*"), 0).is_none());
    assert!(parse_sum(&chars("2+3-"), 0).is_none());
}
