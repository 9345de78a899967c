//! What holds of the parser and the calculator, each alone and the two
//! together.
use crate::calculator::{
    apply, end_of, exact, height, integer_result, run, truncated_quotient, well_formed, Applied,
    CalcError, CalculationResult, Evaluation, Halt, Run,
};
use crate::parser::{
    decimal_value, digits, is_decimal_digit, is_digit_in, operand_token, operator_of,
    operator_token, operators, postfix, reordered, Op, Operand, Radix, Token,
};
use vstd::prelude::*;

verus! {

/// In a postfix sequence no operand follows an operator. The digits of the
/// expression come first, in their order and each as an integer operand, and
/// its operators after them, in the reverse of their order.
pub proof fn theorem_operands_precede_operators(expr: Seq<char>, radix: Radix)
    ensures
        postfix(expr, radix).len() == digits(expr, radix).len() + operators(expr).len(),
        forall|i: int|
            0 <= i < digits(expr, radix).len() ==> #[trigger] postfix(expr, radix)[i]
                == Token::Oper(Operand::Integer(digits(expr, radix)[i])),
        forall|i: int|
            0 <= i < operators(expr).len() ==> #[trigger] postfix(expr, radix)[digits(
                expr,
                radix,
            ).len() + i] == Token::Operator(operators(expr)[operators(expr).len() - 1 - i]),
{
}

/// A postfix sequence has one token for each digit of the expression and one
/// for each operator character, and none besides.
pub proof fn theorem_postfix_length(expr: Seq<char>, radix: Radix)
    ensures
        postfix(expr, radix).len() == expr.filter(|c: char| is_digit_in(c, radix.base())).len()
            + expr.filter(|c: char| operator_of(c) is Some).len(),
{
    lemma_character_counts(expr, radix);
}

proof fn lemma_character_counts(expr: Seq<char>, radix: Radix)
    ensures
        digits(expr, radix).len() == expr.filter(|c: char| is_digit_in(c, radix.base())).len(),
        operators(expr).len() == expr.filter(|c: char| operator_of(c) is Some).len(),
    decreases expr.len(),
{
    reveal(Seq::filter);
    if expr.len() > 0 {
        lemma_character_counts(expr.drop_last(), radix);
    }
}

/// Integer division rounds toward zero: the quotient times the divisor lies
/// between zero and the dividend, and what is left to the dividend is smaller
/// in size than the divisor.
pub proof fn theorem_quotient_truncates(x: int, y: int)
    requires
        y != 0,
    ensures
        ({
            let q = truncated_quotient(x, y);
            let r = x - q * y;
            &&& x >= 0 ==> 0 <= r <= x
            &&& x <= 0 ==> x <= r <= 0
            &&& y > 0 ==> -y < r < y
            &&& y < 0 ==> y < r < -y
        }),
{
    let q = truncated_quotient(x, y);
    if x >= 0 && y > 0 {
        vstd::arithmetic::div_mod::lemma_fundamental_div_mod(x, y);
        vstd::arithmetic::div_mod::lemma_mod_bound(x, y);
        assert(q * y == y * q) by (nonlinear_arith);
    } else if x < 0 && y < 0 {
        vstd::arithmetic::div_mod::lemma_fundamental_div_mod(-x, -y);
        vstd::arithmetic::div_mod::lemma_mod_bound(-x, -y);
        assert(q * y == -((-y) * q)) by (nonlinear_arith);
    } else if x < 0 {
        vstd::arithmetic::div_mod::lemma_fundamental_div_mod(-x, y);
        vstd::arithmetic::div_mod::lemma_mod_bound(-x, y);
        assert(q * y == -(y * ((-x) / y))) by (nonlinear_arith)
            requires
                q == -((-x) / y),
        ;
    } else {
        vstd::arithmetic::div_mod::lemma_fundamental_div_mod(x, -y);
        vstd::arithmetic::div_mod::lemma_mod_bound(x, -y);
        assert(q * y == (-y) * (x / (-y))) by (nonlinear_arith)
            requires
                q == -(x / (-y)),
        ;
    }
}

/// Integer division in 64 bits fails on a zero divisor and on the one
/// quotient that does not fit, the least integer by minus one. On every other
/// pair it gives the quotient rounded toward zero.
pub proof fn theorem_integer_division(x: i64, y: i64)
    ensures
        integer_result(Op::Division, x, y) == if y == 0 {
            Err::<i64, CalcError>(CalcError::DivisionByZero)
        } else if x == i64::MIN && y == -1 {
            Err(CalcError::Overflow)
        } else {
            Ok(truncated_quotient(x as int, y as int) as i64)
        },
{
    if y != 0 {
        let q = truncated_quotient(x as int, y as int);
        theorem_quotient_truncates(x as int, y as int);
        assert(-x <= q <= x || x <= q <= -x) by (nonlinear_arith)
            requires
                y != 0,
                x >= 0 ==> 0 <= x - q * y <= x,
                x <= 0 ==> x <= x - q * y <= 0,
        ;
        if x == i64::MIN && y == -1 {
            assert(q == -x) by (nonlinear_arith)
                requires
                    y == -1,
                    x <= x - q * y <= 0,
                    y < x - q * y,
            ;
        }
        if x == i64::MIN && y != -1 {
            assert(q != -x) by (nonlinear_arith)
                requires
                    y != 0,
                    y != -1,
                    x < 0,
                    x <= x - q * y <= 0,
                    y > 0 ==> -y < x - q * y,
                    y < 0 ==> y < x - q * y,
            ;
        }
    }
}

/// The promotion rule. An operator on two integers gives an integer or fails;
/// with a float on either side it gives a float and never fails, a zero
/// divisor included.
pub proof fn theorem_promotion(op: Op, first: Operand, second: Operand)
    ensures
        (first is Float || second is Float) <==> apply(op, first, second) == Ok::<
            Applied,
            CalcError,
        >(Applied::Float),
        (first is Integer && second is Integer) <==> (apply(op, first, second) matches Ok(
            Applied::Integer(_),
        ) || apply(op, first, second) is Err),
        apply(op, first, second) == Err::<Applied, CalcError>(CalcError::DivisionByZero) <==> (
        op == Op::Division && first is Integer && second == Operand::Integer(0)),
{
}

/// The height after a first token and the rest is the height after the rest,
/// from where the first token left the stack.
proof fn lemma_height_first(from: nat, tokens: Seq<Token>, i: int)
    requires
        0 < i <= tokens.len(),
    ensures
        height(from, tokens.take(i)) == height(from, seq![tokens[0]]) + height(
            0,
            tokens.drop_first().take(i - 1),
        ),
        height(from, seq![tokens[0]]) == from + (if tokens[0] is Oper {
            1int
        } else {
            -1int
        }),
{
    let operand = |t: Token| t is Oper;
    let operator = |t: Token| t is Operator;
    let head = seq![tokens[0]];
    let tail = tokens.drop_first().take(i - 1);
    assert(tokens.take(i) == head + tail);
    Seq::filter_distributes_over_add(head, tail, operand);
    Seq::filter_distributes_over_add(head, tail, operator);
    Seq::<Token>::empty().lemma_filter_push(tokens[0], operand);
    Seq::<Token>::empty().lemma_filter_push(tokens[0], operator);
    reveal(Seq::filter);
}

/// A sequence is well formed for a stack exactly if what follows its first
/// token is well formed for the stack that the first token leaves, and the
/// first token, if it is an operator, finds two values.
proof fn lemma_well_formed_first(from: nat, tokens: Seq<Token>)
    requires
        tokens.len() > 0,
    ensures
        tokens[0] is Oper ==> (well_formed(from, tokens) <==> well_formed(
            from + 1,
            tokens.drop_first(),
        )),
        tokens[0] is Operator ==> (well_formed(from, tokens) <==> from >= 2 && well_formed(
            (from - 1) as nat,
            tokens.drop_first(),
        )),
{
    let rest = tokens.drop_first();
    let next: nat = if tokens[0] is Oper {
        from + 1
    } else {
        (from - 1) as nat
    };
    assert(height(from, tokens.take(0)) == from) by {
        reveal(Seq::filter);
    }
    assert(tokens.take(tokens.len() as int) == tokens);
    assert(rest.take(rest.len() as int) == rest);
    lemma_height_first(from, tokens, tokens.len() as int);
    if tokens[0] is Oper || from >= 2 {
        if well_formed(from, tokens) {
            assert forall|j: int| 0 <= j < rest.len() && #[trigger] rest[j] is Operator implies height(
                next,
                rest.take(j),
            ) >= 2 by {
                lemma_height_first(from, tokens, j + 1);
            }
        }
        if well_formed(next, rest) {
            assert forall|i: int|
                0 <= i < tokens.len() && #[trigger] tokens[i] is Operator implies height(
                from,
                tokens.take(i),
            ) >= 2 by {
                if i > 0 {
                    assert(tokens[i] == rest[i - 1]);
                    lemma_height_first(from, tokens, i);
                }
            }
        }
    }
}

/// The shape of a sequence decides how its run can end. A run ends in a value
/// only if the sequence is well formed for the stack, and in
/// `MalformedSequence` only if it is not. Where the run is suspended, the
/// sequence is well formed exactly if the rest is, for the stack below with
/// the result of the suspended operation on it. So a sequence that is not
/// well formed never comes to a value, however often it is resumed.
pub proof fn theorem_shape_decides(stack: Seq<Operand>, tokens: Seq<Token>)
    ensures
        run(stack, tokens).end matches Ok(Halt::Finished(_)) ==> well_formed(stack.len(), tokens),
        run(stack, tokens).end == Err::<Halt, CalcError>(CalcError::MalformedSequence)
            ==> !well_formed(stack.len(), tokens),
        run(stack, tokens).end matches Ok(Halt::Suspended { stack: below, .. }) ==> (well_formed(
            stack.len(),
            tokens,
        ) <==> well_formed(below.len() + 1, run(stack, tokens).rest)),
    decreases tokens.len(),
{
    if tokens.len() == 0 {
        assert(height(stack.len(), tokens) == stack.len()) by {
            reveal(Seq::filter);
        }
    } else {
        let rest = tokens.drop_first();
        lemma_well_formed_first(stack.len(), tokens);
        match tokens[0] {
            Token::Oper(operand) => {
                theorem_shape_decides(stack.push(operand), rest);
            },
            Token::Operator(op) => {
                if stack.len() >= 2 {
                    let first = stack[stack.len() - 2];
                    let second = stack[stack.len() - 1];
                    let below = stack.take(stack.len() - 2);
                    match apply(op, first, second) {
                        Ok(Applied::Integer(value)) => {
                            theorem_shape_decides(below.push(Operand::Integer(value)), rest);
                        },
                        Ok(Applied::Float) => {},
                        Err(error) => {},
                    }
                }
            },
        }
    }
}

/// A run on integers stays on integers: from a stack of integers, a sequence
/// whose operands are integers is never suspended, and the value that it comes
/// to, if any, is an integer.
pub proof fn theorem_integers_stay_integers(stack: Seq<Operand>, tokens: Seq<Token>)
    requires
        forall|i: int| 0 <= i < stack.len() ==> #[trigger] stack[i] is Integer,
        forall|i: int|
            0 <= i < tokens.len() && #[trigger] tokens[i] is Oper ==> tokens[i]->Oper_0 is Integer,
    ensures
        run(stack, tokens).end matches Ok(Halt::Finished(CalculationResult::Integer(_))) || run(
            stack,
            tokens,
        ).end is Err,
    decreases tokens.len(),
{
    if tokens.len() > 0 {
        let rest = tokens.drop_first();
        assert forall|i: int| 0 <= i < rest.len() && #[trigger] rest[i] is Oper implies rest[i]->Oper_0 is Integer by {
            assert(rest[i] == tokens[i + 1]);
        }
        match tokens[0] {
            Token::Oper(operand) => {
                theorem_integers_stay_integers(stack.push(operand), rest);
            },
            Token::Operator(op) => {
                if stack.len() >= 2 {
                    let first = stack[stack.len() - 2];
                    let second = stack[stack.len() - 1];
                    let below = stack.take(stack.len() - 2);
                    match apply(op, first, second) {
                        Ok(Applied::Integer(value)) => {
                            theorem_integers_stay_integers(
                                below.push(Operand::Integer(value)),
                                rest,
                            );
                        },
                        Ok(Applied::Float) => {},
                        Err(error) => {},
                    }
                }
            },
        }
    }
}

/// The run of two operands and an operator. Two integers come to the value
/// of the integer operation, or to its error. With a float among the two the
/// run is suspended on exactly that operation, over an empty stack and with
/// no token left; resumed with a result, it comes to that result, as a float.
pub proof fn theorem_binary_sequence(first: Operand, second: Operand, op: Op, value: u64)
    ensures
        run(Seq::empty(), seq![Token::Oper(first), Token::Oper(second), Token::Operator(op)])
            == (Run {
            end: match apply(op, first, second) {
                Ok(Applied::Integer(result)) => Ok(
                    Halt::Finished(CalculationResult::Integer(result)),
                ),
                Ok(Applied::Float) => Ok(
                    Halt::Suspended { op, first, second, stack: Seq::empty() },
                ),
                Err(error) => Err(error),
            },
            rest: Seq::empty(),
        }),
        run(Seq::empty().push(Operand::Float(value)), Seq::empty()) == (Run {
            end: Ok(Halt::Finished(CalculationResult::Float(value))),
            rest: Seq::empty(),
        }),
{
    let tokens = seq![Token::Oper(first), Token::Oper(second), Token::Operator(op)];
    reveal_with_fuel(run, 4);
    assert(tokens.drop_first().drop_first().drop_first() == Seq::<Token>::empty());
    let stack = Seq::<Operand>::empty().push(first).push(second);
    assert(stack.take(0) == Seq::<Operand>::empty());
}

/// The value of `values` with `signs` between them, each operator taking all
/// that stands to its right as its right operand: for the values `a`, `b`, `c`
/// and the operators `+`, `*` it is `a + (b * c)`. The first error on the way
/// from the right is the result.
pub open spec fn nested(values: Seq<i64>, signs: Seq<Op>) -> Result<i64, CalcError>
    recommends
        values.len() == signs.len() + 1,
    decreases signs.len(),
{
    if signs.len() == 0 {
        Ok(values[0])
    } else {
        match nested(values.drop_first(), signs.drop_first()) {
            Ok(right) => integer_result(signs[0], values[0], right),
            Err(error) => Err(error),
        }
    }
}

/// Integer operands at the head of a sequence go to the stack as they are.
proof fn lemma_run_operands(stack: Seq<Operand>, values: Seq<i64>, rest: Seq<Token>)
    ensures
        run(stack, values.map_values(operand_token()) + rest) == run(
            stack + values.map_values(|value: i64| Operand::Integer(value)),
            rest,
        ),
    decreases values.len(),
{
    let integer = |value: i64| Operand::Integer(value);
    let tokens = values.map_values(operand_token()) + rest;
    if values.len() == 0 {
        assert(tokens == rest);
        assert(stack + values.map_values(integer) == stack);
    } else {
        let first = Operand::Integer(values[0]);
        assert(tokens.drop_first() == values.drop_first().map_values(operand_token()) + rest);
        lemma_run_operands(stack.push(first), values.drop_first(), rest);
        assert(stack.push(first) + values.drop_first().map_values(integer) == stack
            + values.map_values(integer));
    }
}

/// On a stack that ends in `values`, the operators `signs` in reverse put
/// the nested value of the two in the place of `values`, or end the run with
/// its error.
proof fn lemma_run_operators(
    stack: Seq<Operand>,
    values: Seq<i64>,
    signs: Seq<Op>,
    rest: Seq<Token>,
)
    requires
        values.len() == signs.len() + 1,
    ensures
        match nested(values, signs) {
            Ok(value) => run(
                stack + values.map_values(|value: i64| Operand::Integer(value)),
                signs.map_values(operator_token()).reverse() + rest,
            ) == run(stack.push(Operand::Integer(value)), rest),
            Err(error) => run(
                stack + values.map_values(|value: i64| Operand::Integer(value)),
                signs.map_values(operator_token()).reverse() + rest,
            ).end == Err::<Halt, CalcError>(error),
        },
    decreases signs.len(),
{
    let integer = |value: i64| Operand::Integer(value);
    let held = stack + values.map_values(integer);
    let tokens = signs.map_values(operator_token()).reverse() + rest;
    if signs.len() == 0 {
        assert(tokens == rest);
        assert(held == stack.push(Operand::Integer(values[0])));
    } else {
        let first = Operand::Integer(values[0]);
        let last = seq![Token::Operator(signs[0])] + rest;
        lemma_run_operators(stack.push(first), values.drop_first(), signs.drop_first(), last);
        assert(stack.push(first) + values.drop_first().map_values(integer) == held);
        assert(signs.drop_first().map_values(operator_token()).reverse() + last == tokens);
        match nested(values.drop_first(), signs.drop_first()) {
            Ok(right) => {
                let second = Operand::Integer(right);
                let full = stack.push(first).push(second);
                assert(last.drop_first() == rest);
                assert(full.take(full.len() - 2) == stack);
            },
            Err(error) => {},
        }
    }
}

/// The run of a reordered sequence nests to the right. With one operator
/// fewer than there are values, the values and then the operators in reverse
/// come to the value in which each operator takes all that stands to its
/// right as its right operand, or to the first error on the way from the
/// right.
pub proof fn theorem_reordered_nests_right(values: Seq<i64>, signs: Seq<Op>)
    requires
        values.len() == signs.len() + 1,
    ensures
        run(Seq::empty(), reordered(values, signs)).end == match nested(values, signs) {
            Ok(value) => Ok::<Halt, CalcError>(Halt::Finished(CalculationResult::Integer(value))),
            Err(error) => Err(error),
        },
        nested(values, signs) is Ok ==> run(Seq::empty(), reordered(values, signs)).rest
            == Seq::<Token>::empty(),
{
    let tail = signs.map_values(operator_token()).reverse();
    lemma_run_operands(Seq::empty(), values, tail);
    lemma_run_operators(Seq::empty(), values, signs, Seq::empty());
}

/// What an operator gives on two single digits fits in 64 bits.
proof fn lemma_digits_fit(op: Op, x: int, y: int)
    requires
        0 <= x <= 9,
        0 <= y <= 9,
        op == Op::Division ==> y != 0,
    ensures
        -9 <= exact(op, x, y) <= 81,
{
    match op {
        Op::Multiplication => {
            assert(0 <= x * y <= 81) by (nonlinear_arith)
                requires
                    0 <= x <= 9,
                    0 <= y <= 9,
            ;
        },
        Op::Division => {
            theorem_quotient_truncates(x, y);
            assert(0 <= x / y <= 9) by (nonlinear_arith)
                requires
                    0 <= x - (x / y) * y <= x,
                    x <= 9,
                    1 <= y,
            ;
        },
        _ => {},
    }
}

/// The digits and the operator of a digit, an operator and a digit.
proof fn lemma_single_operation_parts(a: char, sign: char, b: char, radix: Radix)
    requires
        is_digit_in(a, radix.base()),
        is_digit_in(b, radix.base()),
        operator_of(sign) is Some,
    ensures
        digits(seq![a, sign, b], radix) == seq![decimal_value(a), decimal_value(b)],
        operators(seq![a, sign, b]) == seq![operator_of(sign)->0],
{
    reveal_with_fuel(Seq::filter_map, 4);
}

/// The postfix sequence of `a`, an operator and `b`, where `a` and `b` are
/// single digits, is the two digits and then the operator, and it comes to
/// what the operator gives on the two digits' values: their sum, difference
/// or product, or their quotient rounded toward zero, and `DivisionByZero`
/// where `b` is zero under a division.
pub proof fn theorem_single_operation(a: char, sign: char, b: char, radix: Radix)
    requires
        is_decimal_digit(a) && is_digit_in(a, radix.base()),
        is_decimal_digit(b) && is_digit_in(b, radix.base()),
        operator_of(sign) is Some,
    ensures
        postfix(seq![a, sign, b], radix) == seq![
            Token::Oper(Operand::Integer(decimal_value(a))),
            Token::Oper(Operand::Integer(decimal_value(b))),
            Token::Operator(operator_of(sign)->0),
        ],
        0 <= decimal_value(a) <= 9 && 0 <= decimal_value(b) <= 9,
        run(Seq::empty(), postfix(seq![a, sign, b], radix)) == (Run {
            end: if operator_of(sign)->0 == Op::Division && decimal_value(b) == 0 {
                Err(CalcError::DivisionByZero)
            } else {
                Ok(
                    Halt::Finished(
                        CalculationResult::Integer(
                            exact(
                                operator_of(sign)->0,
                                decimal_value(a) as int,
                                decimal_value(b) as int,
                            ) as i64,
                        ),
                    ),
                )
            },
            rest: Seq::empty(),
        }),
{
    let op = operator_of(sign)->0;
    let x = decimal_value(a);
    let y = decimal_value(b);
    lemma_single_operation_parts(a, sign, b, radix);
    assert(postfix(seq![a, sign, b], radix) == seq![
        Token::Oper(Operand::Integer(x)),
        Token::Oper(Operand::Integer(y)),
        Token::Operator(op),
    ]);
    theorem_binary_sequence(Operand::Integer(x), Operand::Integer(y), op, 0);
    if !(op == Op::Division && y == 0) {
        lemma_digits_fit(op, x as int, y as int);
    }
}

/// Evaluation after parsing is a function of the expression. Two
/// evaluations, each of a freshly parsed copy of one expression under one
/// radix, return the same: one integer value, or one error. Neither is
/// suspended, since the parser writes no float.
pub proof fn theorem_round_trip(
    expr: Seq<char>,
    radix: Radix,
    once: Result<Evaluation, CalcError>,
    again: Result<Evaluation, CalcError>,
)
    requires
        end_of(once) == run(Seq::empty(), postfix(expr, radix)).end,
        end_of(again) == run(Seq::empty(), postfix(expr, radix)).end,
    ensures
        once == again,
        once matches Ok(Evaluation::Finished(CalculationResult::Integer(_))) || once is Err,
{
    theorem_operands_precede_operators(expr, radix);
    theorem_integers_stay_integers(Seq::empty(), postfix(expr, radix));
}

/// An expression with one operator fewer than it has digits comes to the
/// value that nests to the right: `8*2-3` is `8 * (2 - 3)`. Where the digits
/// and the operators alternate, that is the expression as it is written, read
/// without precedence and from the right.
pub proof fn theorem_expression_nests_right(expr: Seq<char>, radix: Radix)
    requires
        digits(expr, radix).len() == operators(expr).len() + 1,
    ensures
        run(Seq::empty(), postfix(expr, radix)).end == match nested(
            digits(expr, radix),
            operators(expr),
        ) {
            Ok(value) => Ok::<Halt, CalcError>(Halt::Finished(CalculationResult::Integer(value))),
            Err(error) => Err(error),
        },
{
    theorem_reordered_nests_right(digits(expr, radix), operators(expr));
}

/// A reordered sequence has the height of its values less its operators.
proof fn lemma_reordered_height(values: Seq<i64>, signs: Seq<Op>)
    ensures
        height(0, reordered(values, signs)) == values.len() - signs.len(),
{
    let operand = |t: Token| t is Oper;
    let operator = |t: Token| t is Operator;
    let head = values.map_values(operand_token());
    let tail = signs.map_values(operator_token()).reverse();
    Seq::filter_distributes_over_add(head, tail, operand);
    Seq::filter_distributes_over_add(head, tail, operator);
    lemma_filter_all(head, operand);
    lemma_filter_all(tail, operator);
    head.lemma_all_neg_filter_empty(operator);
    tail.lemma_all_neg_filter_empty(operand);
}

/// A filter keeps a sequence whose every element passes it.
proof fn lemma_filter_all(tokens: Seq<Token>, pred: spec_fn(Token) -> bool)
    requires
        forall|i: int| 0 <= i < tokens.len() ==> pred(#[trigger] tokens[i]),
    ensures
        tokens.filter(pred) == tokens,
    decreases tokens.len(),
{
    reveal(Seq::filter);
    if tokens.len() > 0 {
        lemma_filter_all(tokens.drop_last(), pred);
    }
}

/// An expression whose digits and operators do not balance has no value:
/// unless its digits are one more than its operators, its evaluation ends in
/// an error.
pub proof fn theorem_unbalanced_expression_fails(expr: Seq<char>, radix: Radix)
    requires
        digits(expr, radix).len() != operators(expr).len() + 1,
    ensures
        run(Seq::empty(), postfix(expr, radix)).end is Err,
{
    let tokens = postfix(expr, radix);
    lemma_reordered_height(digits(expr, radix), operators(expr));
    theorem_shape_decides(Seq::empty(), tokens);
    theorem_operands_precede_operators(expr, radix);
    theorem_integers_stay_integers(Seq::empty(), tokens);
}

} // verus!
