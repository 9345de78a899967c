use std::collections::VecDeque;

use calc_core::parser::{is_digit, Op, Operand, Parser, Radix, Token};

fn number(value: i64) -> Token {
    Token::Oper(Operand::Integer(value))
}

fn parse(expr: &str, radix: Radix) -> Vec<Token> {
    let parser = Parser::new(radix);
    assert!(parser.accepts(expr));
    parser.parse(String::from(expr)).into_iter().collect()
}

#[test]
fn test_parser() {
    let expr = String::from("4+4");
    let parser = Parser::new(Radix::Decimal);
    let tokens = parser.parse(expr);

    assert_eq!(
        tokens,
        vec![
            Token::Oper(Operand::Integer(4)),
            Token::Oper(Operand::Integer(4)),
            Token::Operator(Op::Addition),
        ]
    );
}

#[test]
fn test_parser_subtract() {
    let expr = String::from("4-3");
    let parser = Parser::new(Radix::Decimal);
    let tokens = parser.parse(expr);
    assert_eq!(
        tokens,
        vec![
            Token::Oper(Operand::Integer(4)),
            Token::Oper(Operand::Integer(3)),
            Token::Operator(Op::Subtraction)
        ]
    );
}

#[test]
fn test_parser_multiply() {
    let expr = String::from("4*3");
    let parser = Parser::new(Radix::Decimal);
    let tokens = parser.parse(expr);
    assert_eq!(
        tokens,
        vec![
            Token::Oper(Operand::Integer(4)),
            Token::Oper(Operand::Integer(3)),
            Token::Operator(Op::Multiplication)
        ]
    );
}

#[test]
fn test_parser_division() {
    let expr = String::from("9/3");
    let parser = Parser::new(Radix::Decimal);
    let tokens = parser.parse(expr);
    assert_eq!(
        tokens,
        vec![
            Token::Oper(Operand::Integer(9)),
            Token::Oper(Operand::Integer(3)),
            Token::Operator(Op::Division)
        ]
    );
}

#[test]
fn empty_expression_gives_no_token() {
    let tokens: VecDeque<Token> = Parser::new(Radix::Decimal).parse(String::new());
    assert!(tokens.is_empty());
}

#[test]
fn operators_come_out_last_written_first() {
    assert_eq!(
        parse("1+2-3*4/5", Radix::Decimal),
        vec![
            number(1),
            number(2),
            number(3),
            number(4),
            number(5),
            Token::Operator(Op::Division),
            Token::Operator(Op::Multiplication),
            Token::Operator(Op::Subtraction),
            Token::Operator(Op::Addition),
        ]
    );
}

#[test]
fn operators_before_operands_still_follow_them() {
    assert_eq!(
        parse("+-12", Radix::Decimal),
        vec![number(1), number(2), Token::Operator(Op::Subtraction), Token::Operator(Op::Addition)]
    );
}

#[test]
fn other_characters_are_passed_over() {
    assert_eq!(
        parse(" (4 + 4) = x\t\n", Radix::Decimal),
        vec![number(4), number(4), Token::Operator(Op::Addition)]
    );
    assert_eq!(parse("abc xyz ()%^", Radix::Decimal), vec![]);
    assert_eq!(parse("\u{663}+\u{ff14}", Radix::Decimal), vec![Token::Operator(Op::Addition)]);
}

#[test]
fn every_digit_of_a_run_is_an_operand_of_its_own() {
    assert_eq!(
        parse("12+3", Radix::Decimal),
        vec![number(1), number(2), number(3), Token::Operator(Op::Addition)]
    );
}

#[test]
fn every_decimal_digit_has_its_value() {
    assert_eq!(
        parse("0123456789", Radix::Decimal),
        vec![number(0), number(1), number(2), number(3), number(4), number(5), number(6), number(7), number(8), number(9)]
    );
}

#[test]
fn binary_radix_takes_zero_and_one_only() {
    assert_eq!(
        parse("1+2*0-9", Radix::Binary),
        vec![
            number(1),
            number(0),
            Token::Operator(Op::Subtraction),
            Token::Operator(Op::Multiplication),
            Token::Operator(Op::Addition),
        ]
    );
}

#[test]
fn hexadecimal_radix_takes_the_decimal_digits() {
    assert_eq!(
        parse("9/3 g z", Radix::Hexadecimal),
        vec![number(9), number(3), Token::Operator(Op::Division)]
    );
}

#[test]
fn letters_are_digits_under_hexadecimal_only() {
    let hexadecimal = Parser::new(Radix::Hexadecimal);
    for expr in ["a", "F", "1+b", "9c", "deadbeef"] {
        assert!(!hexadecimal.accepts(expr), "{expr}");
        assert!(Parser::new(Radix::Decimal).accepts(expr), "{expr}");
        assert!(Parser::new(Radix::Binary).accepts(expr), "{expr}");
    }
    for expr in ["", "0123456789", "4+4", "g-z", "G Z", " ", "\u{e9}"] {
        assert!(hexadecimal.accepts(expr), "{expr}");
    }
    assert_eq!(parse("a+1", Radix::Decimal), vec![number(1), Token::Operator(Op::Addition)]);
}

#[test]
fn radix_bases() {
    assert_eq!(Radix::Binary.base(), 2);
    assert_eq!(Radix::Decimal.base(), 10);
    assert_eq!(Radix::Hexadecimal.base(), 16);
}

#[test]
fn is_digit_agrees_with_the_standard_library() {
    let mut chars: Vec<char> = (0u32..0x250).filter_map(char::from_u32).collect();
    chars.extend(['\u{660}', '\u{966}', '\u{ff10}', '\u{ff21}', '\u{10ffff}', '\u{d7ff}', '\u{e000}']);
    for base in 2..=36 {
        for &c in &chars {
            assert_eq!(is_digit(c, base), c.is_digit(base), "{c:?} in base {base}");
        }
    }
}

#[test]
fn is_digit_outside_the_usual_bases() {
    for c in ['0', '9', 'a', 'z', 'A', 'Z', '+', ' '] {
        assert!(!is_digit(c, 0));
    }
    assert!(is_digit('0', 1));
    assert!(!is_digit('1', 1));
    assert!(is_digit('z', 36));
    assert!(is_digit('Z', u32::MAX));
    assert!(!is_digit('+', u32::MAX));
    assert!(is_digit('7', 8));
    assert!(!is_digit('8', 8));
    assert!(is_digit('f', 16));
    assert!(!is_digit('g', 16));
}

#[test]
fn one_token_for_each_digit_and_each_operator() {
    let expr = "7 * (3 + 42) - x / 10";
    let digits = expr.chars().filter(|c| c.is_ascii_digit()).count();
    let signs = expr.chars().filter(|c| "+-*/".contains(*c)).count();
    let tokens = parse(expr, Radix::Decimal);
    assert_eq!(digits, 6);
    assert_eq!(signs, 4);
    assert_eq!(tokens.len(), digits + signs);
    assert!(tokens[..digits].iter().all(|t| matches!(t, Token::Oper(Operand::Integer(_)))));
    assert!(tokens[digits..].iter().all(|t| matches!(t, Token::Operator(_))));
}
