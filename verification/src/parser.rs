//! Tokens, and the pass that reorders an infix expression into postfix.
use std::collections::VecDeque;
use vstd::prelude::*;

verus! {

/// The numeric base that decides which characters count as digits.
///
/// It has no part in the arithmetic: a digit's value is its decimal value
/// under every radix.
#[derive(Debug, Clone, Copy, PartialEq, Eq, Structural)]
pub enum Radix {
    Binary,
    Decimal,
    Hexadecimal,
}

/// A binary operator.
#[derive(Debug, Clone, Copy, PartialEq, Eq, Structural)]
pub enum Op {
    Addition,
    Subtraction,
    Multiplication,
    Division,
}

/// A value on which the operators work.
#[derive(Debug, Clone, Copy, PartialEq, Eq, Structural)]
pub enum Operand {
    /// A double-precision floating-point value, held as its IEEE 754 bit
    /// pattern. This library passes such a value on and never computes with
    /// it.
    Float(u64),
    Integer(i64),
}

/// An element of a postfix sequence.
#[derive(Debug, Clone, Copy, PartialEq, Eq, Structural)]
pub enum Token {
    Oper(Operand),
    Operator(Op),
}

/// Reorders expressions into postfix under one radix.
#[derive(Debug)]
pub struct Parser {
    radix: Radix,
}

impl Radix {
    /// The base as a number: 2, 10 or 16.
    pub open spec fn base_spec(self) -> u32 {
        match self {
            Radix::Binary => 2,
            Radix::Decimal => 10,
            Radix::Hexadecimal => 16,
        }
    }

    /// The base as a number: 2, 10 or 16.
    #[verifier::when_used_as_spec(base_spec)]
    pub fn base(self) -> (b: u32)
        ensures
            b == self.base_spec(),
    {
        match self {
            Radix::Binary => 2,
            Radix::Decimal => 10,
            Radix::Hexadecimal => 16,
        }
    }
}

/// The value of `c` read as a digit: `0` to `9` count 0 to 9, and the letters
/// `a` to `z`, in either case, count 10 to 35. Other characters have none.
pub open spec fn digit_value(c: char) -> Option<u32> {
    if '0' <= c <= '9' {
        Some((c as u32 - '0' as u32) as u32)
    } else if 'a' <= c <= 'z' {
        Some((c as u32 - 'a' as u32 + 10) as u32)
    } else if 'A' <= c <= 'Z' {
        Some((c as u32 - 'A' as u32 + 10) as u32)
    } else {
        None
    }
}

/// Whether `c` is a digit in the given base: it has a digit value, and that
/// value is below the base.
pub open spec fn is_digit_in(c: char, base: u32) -> bool {
    digit_value(c) matches Some(v) && v < base
}

/// Whether `c` is one of `0` to `9`.
pub open spec fn is_decimal_digit(c: char) -> bool {
    '0' <= c <= '9'
}

/// The decimal value of one of the characters `0` to `9`.
pub open spec fn decimal_value(c: char) -> i64
    recommends
        is_decimal_digit(c),
{
    (c as int - '0' as int) as i64
}

/// The operator that `c` writes, if it writes one.
pub open spec fn operator_of(c: char) -> Option<Op> {
    if c == '+' {
        Some(Op::Addition)
    } else if c == '-' {
        Some(Op::Subtraction)
    } else if c == '/' {
        Some(Op::Division)
    } else if c == '*' {
        Some(Op::Multiplication)
    } else {
        None
    }
}

/// What a character adds to the digits of an expression: a digit under
/// `radix` gives its decimal value, any other character nothing.
pub open spec fn digit_rule(radix: Radix) -> spec_fn(char) -> Option<i64> {
    |c: char|
        if is_digit_in(c, radix.base()) {
            Some(decimal_value(c))
        } else {
            None
        }
}

/// What a character adds to the operators of an expression.
pub open spec fn operator_rule() -> spec_fn(char) -> Option<Op> {
    |c: char| operator_of(c)
}

/// The values of the digits of `expr` under `radix`, in the order in which
/// they are written.
pub open spec fn digits(expr: Seq<char>, radix: Radix) -> Seq<i64> {
    expr.filter_map(digit_rule(radix))
}

/// The operators of `expr`, in the order in which they are written.
pub open spec fn operators(expr: Seq<char>) -> Seq<Op> {
    expr.filter_map(operator_rule())
}

/// The integer operand of a given value, as a token.
pub open spec fn operand_token() -> spec_fn(i64) -> Token {
    |value: i64| Token::Oper(Operand::Integer(value))
}

/// An operator as a token.
pub open spec fn operator_token() -> spec_fn(Op) -> Token {
    |op: Op| Token::Operator(op)
}

/// The sequence that holds `values` as integer operands, in their order, and
/// then `signs`, the last of them first.
pub open spec fn reordered(values: Seq<i64>, signs: Seq<Op>) -> Seq<Token> {
    values.map_values(operand_token()) + signs.map_values(operator_token()).reverse()
}

/// The postfix sequence of `expr`: its digits as written, each an integer
/// operand, then its operators, the one written last first. Characters that
/// are neither are left out.
pub open spec fn postfix(expr: Seq<char>, radix: Radix) -> Seq<Token> {
    reordered(digits(expr, radix), operators(expr))
}

/// The expressions that can be parsed under `radix`: those in which every
/// digit under the radix has a decimal value. Under `Binary` and `Decimal`
/// that is every expression; under `Hexadecimal` it leaves out those that
/// hold one of the letters `a` to `f`, in either case.
pub open spec fn parseable(expr: Seq<char>, radix: Radix) -> bool {
    forall|i: int|
        0 <= i < expr.len() && is_digit_in(#[trigger] expr[i], radix.base()) ==> is_decimal_digit(
            expr[i],
        )
}

/// Whether `c` is a digit in the given base, for every base: no character is
/// a digit in base 0, and only digits and letters are in any base.
pub fn is_digit(c: char, base: u32) -> (b: bool)
    ensures
        b == is_digit_in(c, base),
{
    if '0' <= c && c <= '9' {
        (c as u32 - '0' as u32) < base
    } else if 'a' <= c && c <= 'z' {
        (c as u32 - 'a' as u32) + 10 < base
    } else if 'A' <= c && c <= 'Z' {
        (c as u32 - 'A' as u32) + 10 < base
    } else {
        false
    }
}

/// One more character adds to the digits and to the operators what the two
/// rules make of it.
proof fn lemma_next_character(expr: Seq<char>, radix: Radix, i: int)
    requires
        0 <= i < expr.len(),
    ensures
        digits(expr.take(i + 1), radix) == match digit_rule(radix)(expr[i]) {
            Some(value) => digits(expr.take(i), radix).push(value),
            None => digits(expr.take(i), radix),
        },
        operators(expr.take(i + 1)) == match operator_of(expr[i]) {
            Some(op) => operators(expr.take(i)).push(op),
            None => operators(expr.take(i)),
        },
{
    expr.lemma_filter_map_take_succ(digit_rule(radix), i);
    expr.lemma_filter_map_take_succ(operator_rule(), i);
}

impl Parser {
    /// The radix that this parser reads digits under.
    pub closed spec fn radix(&self) -> Radix {
        self.radix
    }

    /// A parser that reads digits under `radix`.
    pub fn new(radix: Radix) -> (parser: Parser)
        ensures
            parser.radix() == radix,
    {
        Parser { radix }
    }

    /// Whether `expr` can be parsed under this parser's radix.
    pub fn accepts(&self, expr: &str) -> (accepted: bool)
        ensures
            accepted == parseable(expr@, self.radix()),
    {
        let base = self.radix.base();
        for ch in it: expr.chars()
            invariant
                it.seq() == expr@,
                base == self.radix().base(),
                parseable(expr@.take(it.index() as int), self.radix()),
        {
            if is_digit(ch, base) && !('0' <= ch && ch <= '9') {
                return false;
            }
            proof {
                expr@.lemma_take_succ_push(it.index() as int);
            }
        }
        assert(expr@.take(expr@.len() as int) == expr@);
        true
    }

    /// Reorders `expr` into postfix, in one pass from left to right: a digit
    /// goes to the output at once, an operator is held back until the end,
    /// and the operators then follow the operands, the last one held first.
    /// No operator takes precedence over another, and any other character is
    /// passed over in silence.
    ///
    /// Every digit of `expr` must have a decimal value, which
    /// [`Parser::accepts`] tests.
    pub fn parse(&self, expr: String) -> (tokens: VecDeque<Token>)
        requires
            parseable(expr@, self.radix()),
        ensures
            tokens@ == postfix(expr@, self.radix()),
    {
        let mut operator_stack: Vec<Token> = Vec::new();
        let mut output_queue: VecDeque<Token> = VecDeque::new();
        let base = self.radix.base();
        for ch in it: expr.as_str().chars()
            invariant
                it.seq() == expr@,
                base == self.radix().base(),
                parseable(expr@, self.radix()),
                output_queue@ == digits(expr@.take(it.index() as int), self.radix()).map_values(
                    operand_token(),
                ),
                operator_stack@ == operators(expr@.take(it.index() as int)).map_values(
                    operator_token(),
                ),
        {
            proof {
                lemma_next_character(expr@, self.radix(), it.index() as int);
            }
            if is_digit(ch, base) {
                let value = (ch as u32 - '0' as u32) as i64;
                output_queue.push_back(Token::Oper(Operand::Integer(value)));
            } else {
                match ch {
                    '+' => operator_stack.push(Token::Operator(Op::Addition)),
                    '-' => operator_stack.push(Token::Operator(Op::Subtraction)),
                    '/' => operator_stack.push(Token::Operator(Op::Division)),
                    '*' => operator_stack.push(Token::Operator(Op::Multiplication)),
                    _ => {},
                }
            }
        }
        assert(expr@.take(expr@.len() as int) == expr@);
        let ghost held = operator_stack@;
        while operator_stack.len() > 0
            invariant
                held == operators(expr@).map_values(operator_token()),
                operator_stack@ == held.take(operator_stack.len() as int),
                operator_stack.len() <= held.len(),
                output_queue@ == digits(expr@, self.radix()).map_values(operand_token())
                    + held.skip(operator_stack.len() as int).reverse(),
            decreases operator_stack.len(),
        {
            output_queue.push_back(operator_stack.pop().unwrap());
        }
        output_queue
    }
}

} // verus!
