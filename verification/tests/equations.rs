use equation::failure::FailureKind;
use equation::parser::{
    combine_exprs, parse_equation, parse_expression, parse_factor, parse_number, parse_op,
    parse_operation, parse_parens, parse_term, rhs,
};
use equation::syntax::{Equation, Expr, Numeral, Operator};

fn value(n: &Numeral) -> f64 {
    let magnitude: f64 = n.literal().parse().unwrap();
    if n.is_negative() {
        -magnitude
    } else {
        magnitude
    }
}

fn evaluate(expr: &Expr) -> f64 {
    match expr {
        Expr::Number(n) => value(n),
        Expr::BinaryOp(Operator::Add, left, right) => evaluate(left) + evaluate(right),
        Expr::BinaryOp(Operator::Subtract, left, right) => evaluate(left) - evaluate(right),
        Expr::BinaryOp(Operator::Multiply, left, right) => evaluate(left) * evaluate(right),
        Expr::BinaryOp(Operator::Divide, left, right) => evaluate(left) / evaluate(right),
        Expr::BinaryOp(Operator::Exponent, left, right) => evaluate(left).powf(evaluate(right)),
    }
}

fn is_correct(equation: &Equation) -> bool {
    evaluate(equation.expression()) == value(equation.expected())
}

fn test_parser(input: &str, correct: bool) {
    let equation = input.parse::<Equation>().unwrap();
    println!("{}", equation.to_text(is_correct(&equation)));
    assert_eq!(is_correct(&equation), correct);
}

fn num(text: &str) -> Expr {
    let (rest, n) = parse_number(text).unwrap();
    assert_eq!(rest, "");
    Expr::Number(n)
}

fn op(operator: Operator, left: Expr, right: Expr) -> Expr {
    Expr::BinaryOp(operator, Box::new(left), Box::new(right))
}

fn tree(input: &str) -> Expr {
    let (rest, expr) = parse_expression(input).unwrap();
    assert_eq!(rest, "");
    expr
}

#[test]
fn test_parse() {
    test_parser("5 + -2 = 3", true);
    test_parser("10 + 10 = 20", true);
    test_parser("10+10=20", true);
    test_parser("10+10-10=10", true);
    test_parser("5*5= 25", true);
    test_parser("100 / 10 = 10", true);
    test_parser("5 * 5 = 25", true);
    test_parser("-25 + -25 = -50", true);
    test_parser("-1 + 2 = 1", true);
    test_parser("1 + 1 = 0", false);
    test_parser("(1 + 1) * 5 = 10", true);
    test_parser("1 + 1 * 5 = 6", true);
    test_parser("5^2 * 2 = 50", true);
    test_parser("5 * 2 + 3 = 13", true);
    test_parser("1.5 + 2.5 = 4.0", true);
    test_parser("   1.5 +  2.5 = 4.0", true);
    test_parser("   1.5 +  2.5 * 5 = 14  ", true);
}

#[test]
fn parentheses_change_the_tree() {
    assert_eq!(
        tree("(1 + 1) * 5"),
        op(Operator::Multiply, op(Operator::Add, num("1"), num("1")), num("5"))
    );
    assert_eq!(
        tree("1 + 1 * 5"),
        op(Operator::Add, num("1"), op(Operator::Multiply, num("1"), num("5")))
    );
    assert_eq!(tree("((7))"), num("7"));
    assert_eq!(tree(" ( 1 ) "), num("1"));
}

#[test]
fn power_binds_tighter_than_product() {
    assert_eq!(
        tree("5^2 * 2"),
        op(Operator::Multiply, op(Operator::Exponent, num("5"), num("2")), num("2"))
    );
    assert_eq!(
        tree("2 * 5^2"),
        op(Operator::Multiply, num("2"), op(Operator::Exponent, num("5"), num("2")))
    );
}

#[test]
fn power_groups_to_the_right() {
    assert_eq!(
        tree("2^3^2"),
        op(Operator::Exponent, num("2"), op(Operator::Exponent, num("3"), num("2")))
    );
    assert_eq!(evaluate(&tree("2^3^2")), 512.0);
    let (rest, expr) = parse_factor("2^3^2*4").unwrap();
    assert_eq!(rest, "*4");
    assert_eq!(
        expr,
        op(Operator::Exponent, num("2"), op(Operator::Exponent, num("3"), num("2")))
    );
}

#[test]
fn product_and_sum_group_to_the_left() {
    assert_eq!(
        tree("8/2/2"),
        op(Operator::Divide, op(Operator::Divide, num("8"), num("2")), num("2"))
    );
    assert_eq!(evaluate(&tree("8/2/2")), 2.0);
    assert_eq!(
        tree("10+10-10"),
        op(Operator::Subtract, op(Operator::Add, num("10"), num("10")), num("10"))
    );
    assert_eq!(
        tree("1 - 2 * 3 / 4 + 5"),
        op(
            Operator::Add,
            op(
                Operator::Subtract,
                num("1"),
                op(Operator::Divide, op(Operator::Multiply, num("2"), num("3")), num("4"))
            ),
            num("5")
        )
    );
    let (rest, expr) = parse_term("8/2*3+1").unwrap();
    assert_eq!(rest, "+1");
    assert_eq!(
        expr,
        op(Operator::Multiply, op(Operator::Divide, num("8"), num("2")), num("3"))
    );
}

#[test]
fn whitespace_does_not_change_the_tree() {
    let spaced = tree("10 + 10");
    assert_eq!(tree("10+10"), spaced);
    assert_eq!(tree("  10\t+   10  "), spaced);
    let a = "10+10=20".parse::<Equation>().unwrap();
    let b = "10 + 10 = 20".parse::<Equation>().unwrap();
    assert_eq!(a, b);
    let c = "   1.5 +  2.5 = 4.0   ".parse::<Equation>().unwrap();
    let d = "1.5 + 2.5 = 4.0".parse::<Equation>().unwrap();
    assert_eq!(c, d);
    assert_eq!(evaluate(c.expression()), evaluate(d.expression()));
}

#[test]
fn blanks_around_parentheses_do_not_change_the_equation() {
    let compact = "(1+1)*5=10".parse::<Equation>().unwrap();
    let inputs = [
        "(1 + 1) * 5 = 10",
        " ( 1+1 )*5 = 10 ",
        "\t(\t1 +\t1)\t* 5\t=\t10",
        "(  1  +  1  )  *  5  =  10",
    ];
    for input in inputs {
        assert_eq!(input.parse::<Equation>().unwrap(), compact);
    }
}

#[test]
fn what_is_left_over_is_the_end_of_the_input() {
    for input in ["1 + 2 = 3 and more", "(4)=4", " 2^2 = 4  ", "7=7=", "1 = 1 + 1"] {
        let (rest, _) = parse_equation(input).unwrap();
        assert!(input.ends_with(rest));
        assert!(rest.len() < input.len());
    }
}

#[test]
fn what_is_read_is_an_equation_by_itself() {
    let inputs =
        ["1 + 2 = 3 and more", "(4)=4", " 2^2 = 4  ", "7=7=", "1 = 1 + 1", "1+2*(3-4)^5/6=7)"];
    for input in inputs {
        let (rest, equation) = parse_equation(input).unwrap();
        let used = &input[..input.len() - rest.len()];
        let (nothing, again) = parse_equation(used).unwrap();
        assert_eq!(nothing, "");
        assert_eq!(again, equation);
    }
}

#[test]
fn negation_belongs_to_one_numeral() {
    let sum = tree("5 + -2");
    assert_eq!(sum, op(Operator::Add, num("5"), num("-2")));
    assert_eq!(evaluate(&sum), 3.0);
    assert_eq!(tree("-25 + -25"), op(Operator::Add, num("-25"), num("-25")));
    assert_eq!(tree("5 - -2"), op(Operator::Subtract, num("5"), num("-2")));
    assert_eq!(tree("5--2"), op(Operator::Subtract, num("5"), num("-2")));
    assert_eq!(
        tree("-2^2"),
        op(Operator::Exponent, num("-2"), num("2"))
    );
    assert_eq!(evaluate(&tree("-2^2")), 4.0);
    assert!(parse_expression("-(1)").is_err());
}

#[test]
fn simple_equations_are_checked_by_their_operator() {
    let cases: [(&str, f64, f64, f64); 8] = [
        ("7 + 5 = 12", 7.0, 5.0, 12.0),
        ("7 - 5 = 2", 7.0, 5.0, 2.0),
        ("7 * 5 = 35", 7.0, 5.0, 35.0),
        ("35 / 5 = 7", 35.0, 5.0, 7.0),
        ("7 + 5 = 13", 7.0, 5.0, 13.0),
        ("7 / 2 = 3", 7.0, 2.0, 3.0),
        ("1 / 0 = 0", 1.0, 0.0, 0.0),
        ("-3 * 4 = -12", -3.0, 4.0, -12.0),
    ];
    for (input, a, b, c) in cases {
        let equation = input.parse::<Equation>().unwrap();
        let expected = match equation.expression() {
            Expr::BinaryOp(Operator::Add, _, _) => a + b == c,
            Expr::BinaryOp(Operator::Subtract, _, _) => a - b == c,
            Expr::BinaryOp(Operator::Multiply, _, _) => a * b == c,
            Expr::BinaryOp(Operator::Divide, _, _) => a / b == c,
            _ => unreachable!(),
        };
        assert_eq!(is_correct(&equation), expected);
    }
}

#[test]
fn division_by_zero_is_a_value() {
    let equation = "1 / 0 = 1".parse::<Equation>().unwrap();
    assert!(evaluate(equation.expression()).is_infinite());
    assert!(!is_correct(&equation));
    let equation = "0 / 0 = 0".parse::<Equation>().unwrap();
    assert!(evaluate(equation.expression()).is_nan());
    assert!(!is_correct(&equation));
}

#[test]
fn equality_is_exact() {
    assert!(!is_correct(&"0.1 + 0.2 = 0.3".parse::<Equation>().unwrap()));
    assert!(is_correct(&"0.5 + 0.25 = 0.75".parse::<Equation>().unwrap()));
}

#[test]
fn equation_holds_both_sides() {
    let (rest, equation) = parse_equation("2 * 3 = 6 and more").unwrap();
    assert_eq!(rest, "and more");
    assert_eq!(equation.expression(), &op(Operator::Multiply, num("2"), num("3")));
    assert_eq!(equation.expected().literal(), "6");
    assert!(!equation.expected().is_negative());
}

#[test]
fn equation_needs_an_expression_an_equals_sign_and_a_value() {
    let failure = parse_equation("= 2").unwrap_err();
    assert_eq!((failure.kind, failure.input), (FailureKind::ExpectedDigit, "= 2"));
    let failure = parse_equation("1 + 1").unwrap_err();
    assert_eq!((failure.kind, failure.input), (FailureKind::ExpectedChar, ""));
    let failure = parse_equation("1 + 1 2").unwrap_err();
    assert_eq!((failure.kind, failure.input), (FailureKind::ExpectedChar, "2"));
    let failure = parse_equation("1 + 1 = x").unwrap_err();
    assert_eq!((failure.kind, failure.input), (FailureKind::ExpectedDigit, "x"));
    let failure = parse_equation("1 + = 2").unwrap_err();
    assert_eq!((failure.kind, failure.input), (FailureKind::ExpectedChar, "+ = 2"));
    let failure = parse_equation("(1 + 1 = 2").unwrap_err();
    assert_eq!((failure.kind, failure.input), (FailureKind::ExpectedDigit, "(1 + 1 = 2"));
    let failure = parse_equation("abc10.5").unwrap_err();
    assert_eq!((failure.kind, failure.input), (FailureKind::ExpectedDigit, "abc10.5"));
    let failure = parse_equation("+10 = 10").unwrap_err();
    assert_eq!((failure.kind, failure.input), (FailureKind::ExpectedDigit, "+10 = 10"));
}

#[test]
fn invalid_equation_describes_the_failure() {
    let error = "abc10.5".parse::<Equation>().unwrap_err();
    assert_eq!(error.message(), "Parsing Error: Error { input: \"abc10.5\", code: Digit }");
    let error = "1 + 1".parse::<Equation>().unwrap_err();
    assert_eq!(error.message(), "Parsing Error: Error { input: \"\", code: Char }");
    let error = "2 * (3 = 6".parse::<Equation>().unwrap_err();
    assert_eq!(error.message(), "Parsing Error: Error { input: \"* (3 = 6\", code: Char }");
}

#[test]
fn an_operator_without_an_operand_is_left_unread() {
    let (rest, expr) = parse_expression("1 + 2 * ").unwrap();
    assert_eq!(rest, "* ");
    assert_eq!(expr, op(Operator::Add, num("1"), num("2")));
    let (rest, expr) = parse_expression("1 + 2 ^").unwrap();
    assert_eq!(rest, "^");
    assert_eq!(expr, op(Operator::Add, num("1"), num("2")));
    let (rest, expr) = parse_expression("4 - (5").unwrap();
    assert_eq!(rest, "- (5");
    assert_eq!(expr, num("4"));
}

#[test]
fn parentheses_must_match() {
    let failure = parse_parens("1").unwrap_err();
    assert_eq!((failure.kind, failure.input), (FailureKind::ExpectedChar, "1"));
    let failure = parse_parens(" (1 + 2").unwrap_err();
    assert_eq!((failure.kind, failure.input), (FailureKind::ExpectedChar, ""));
    let failure = parse_parens("(1 + 2]").unwrap_err();
    assert_eq!((failure.kind, failure.input), (FailureKind::ExpectedChar, "]"));
    let failure = parse_parens("()").unwrap_err();
    assert_eq!((failure.kind, failure.input), (FailureKind::ExpectedDigit, ")"));
    let (rest, expr) = parse_parens(" ( 1 + 2 )  * 3").unwrap();
    assert_eq!(rest, "* 3");
    assert_eq!(expr, op(Operator::Add, num("1"), num("2")));
    let failure = parse_operation("(1 + 2").unwrap_err();
    assert_eq!((failure.kind, failure.input), (FailureKind::ExpectedDigit, "(1 + 2"));
    let (rest, expr) = parse_operation("(3) 4").unwrap();
    assert_eq!((rest, expr), ("4", num("3")));
}

#[test]
fn right_hand_side_starts_with_the_equals_sign() {
    let (rest, n) = rhs("=  -4.0  ").unwrap();
    assert_eq!(rest, "");
    assert_eq!((n.is_negative(), n.literal()), (true, "4.0"));
    let failure = rhs(" = 4").unwrap_err();
    assert_eq!((failure.kind, failure.input), (FailureKind::ExpectedChar, " = 4"));
    let failure = rhs("==4").unwrap_err();
    assert_eq!((failure.kind, failure.input), (FailureKind::ExpectedDigit, "=4"));
}

#[test]
fn operators_are_given_by_their_characters() {
    assert_eq!(parse_op(('+', num("2")), num("1")), op(Operator::Add, num("1"), num("2")));
    assert_eq!(parse_op(('-', num("2")), num("1")), op(Operator::Subtract, num("1"), num("2")));
    assert_eq!(parse_op(('*', num("2")), num("1")), op(Operator::Multiply, num("1"), num("2")));
    assert_eq!(parse_op(('/', num("2")), num("1")), op(Operator::Divide, num("1"), num("2")));
    assert_eq!(parse_op(('^', num("2")), num("1")), op(Operator::Exponent, num("1"), num("2")));
}

#[test]
fn combining_groups_to_the_left() {
    assert_eq!(combine_exprs(num("1"), Vec::new()), num("1"));
    assert_eq!(
        combine_exprs(num("1"), vec![('-', num("2")), ('+', num("3"))]),
        op(Operator::Add, op(Operator::Subtract, num("1"), num("2")), num("3"))
    );
}

#[test]
fn text_has_no_parentheses() {
    assert_eq!(tree("(1 + 1) * 5").to_text(), "1 + 1 * 5");
    assert_eq!(tree("2^(3 - 1)").to_text(), "2^3 - 1");
    assert_eq!(tree("5--2").to_text(), "5 - -2");
    assert_eq!(tree("8/2*3").to_text(), "8 / 2 * 3");
    assert_eq!(Operator::Exponent.symbol(), "^");
    assert_eq!(Operator::Divide.symbol(), " / ");
}

#[test]
fn text_of_an_equation_ends_in_a_mark() {
    let equation = "1.5+2.5=4.0".parse::<Equation>().unwrap();
    assert_eq!(equation.to_text(true), "1.5 + 2.5 = 4.0 \u{2714}");
    assert_eq!(equation.to_text(false), "1.5 + 2.5 = 4.0 \u{274c}");
}

#[test]
fn text_parses_back_to_the_same_equation() {
    for input in ["5 + -2 = 3", "10+10-10=10", "5^2 * 2 = 50", "2^3^2/4-1 = 127", "1 + 1 = 0"] {
        let equation = input.parse::<Equation>().unwrap();
        let correct = is_correct(&equation);
        let text = equation.to_text(correct);
        let (rest, again) = parse_equation(&text).unwrap();
        assert_eq!(again, equation);
        assert_eq!(rest, if correct { "\u{2714}" } else { "\u{274c}" });
        assert_eq!(evaluate(again.expression()), evaluate(equation.expression()));
    }
}

#[test]
fn text_of_a_parenthesized_equation_parses_to_another() {
    let equation = "(1 + 1) * 5 = 10".parse::<Equation>().unwrap();
    assert!(is_correct(&equation));
    let again = equation.to_text(true).parse::<Equation>().unwrap();
    assert_eq!(again.expression(), &tree("1 + 1 * 5"));
    assert!(!is_correct(&again));
}
