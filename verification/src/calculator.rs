//! The stack machine that runs a postfix token sequence.
//!
//! The machine computes on integers. Where an operator meets a
//! floating-point operand it stops and hands the operation to its caller,
//! who computes it in floating point and has the machine go on with the
//! result.
use crate::parser::{Op, Operand, Token};
use std::collections::VecDeque;
use vstd::prelude::*;

verus! {

/// Runs postfix token sequences. It holds no state.
pub struct Calculator {}

/// The value that a token sequence comes to.
#[derive(Debug, Clone, Copy, PartialEq, Eq, Structural)]
pub enum CalculationResult {
    Integer(i64),
    /// A double-precision floating-point value, held as its IEEE 754 bit
    /// pattern.
    Float(u64),
}

/// Why a token sequence has no value.
#[derive(Debug, Clone, Copy, PartialEq, Eq, Structural)]
pub enum CalcError {
    /// The sequence is no postfix expression: an operator found fewer than
    /// two values on the stack, or the end of the sequence found the stack
    /// with no value or with more than one.
    MalformedSequence,
    /// An integer was divided by the integer zero.
    DivisionByZero,
    /// The result of an integer operation does not fit in 64 bits.
    Overflow,
}

/// What applying an operator to a pair of operands comes to.
#[derive(Debug, Clone, Copy, PartialEq, Eq, Structural)]
pub enum Applied {
    /// Both operands are integers: the result of the integer operation.
    Integer(i64),
    /// One operand at least is a float, so the result is a float, which is
    /// computed in floating point and not here.
    Float,
}

/// Where the machine stopped without an error.
#[derive(Debug, PartialEq, Eq)]
pub enum Evaluation {
    /// The tokens are used up and left this one value.
    Finished(CalculationResult),
    /// An operator met a floating-point operand. `first` is its left
    /// operand and `second` its right one; both are off the stack, and
    /// `stack` is what lay below them. The caller applies `op` to the two
    /// in floating point, an integer operand widened first, and resumes
    /// with the result.
    Suspended { op: Op, first: Operand, second: Operand, stack: Vec<Operand> },
}

/// The view of an [`Evaluation`].
pub enum Halt {
    Finished(CalculationResult),
    Suspended { op: Op, first: Operand, second: Operand, stack: Seq<Operand> },
}

impl View for Evaluation {
    type V = Halt;

    open spec fn view(&self) -> Halt {
        match *self {
            Evaluation::Finished(value) => Halt::Finished(value),
            Evaluation::Suspended { op, first, second, stack } => Halt::Suspended {
                op,
                first,
                second,
                stack: stack@,
            },
        }
    }
}

/// A run of the machine: how it ended, and the tokens that it left.
pub struct Run {
    pub end: Result<Halt, CalcError>,
    pub rest: Seq<Token>,
}

/// The quotient of `x` by `y` rounded toward zero.
pub open spec fn truncated_quotient(x: int, y: int) -> int
    recommends
        y != 0,
{
    if x >= 0 && y > 0 {
        x / y
    } else if x < 0 && y < 0 {
        (-x) / (-y)
    } else if x < 0 {
        -((-x) / y)
    } else {
        -(x / (-y))
    }
}

/// The result of `op` on the integers `x` and `y`, with no bound on its size.
pub open spec fn exact(op: Op, x: int, y: int) -> int
    recommends
        op == Op::Division ==> y != 0,
{
    match op {
        Op::Addition => x + y,
        Op::Subtraction => x - y,
        Op::Multiplication => x * y,
        Op::Division => truncated_quotient(x, y),
    }
}

/// The result of `op` on the integers `x` and `y` in 64 bits: the exact
/// result where it fits, `DivisionByZero` for a division by zero, and
/// `Overflow` for a result that does not fit.
pub open spec fn integer_result(op: Op, x: i64, y: i64) -> Result<i64, CalcError> {
    if op == Op::Division && y == 0 {
        Err(CalcError::DivisionByZero)
    } else if i64::MIN <= exact(op, x as int, y as int) <= i64::MAX {
        Ok(exact(op, x as int, y as int) as i64)
    } else {
        Err(CalcError::Overflow)
    }
}

/// What `op` on the pair `(first, second)` comes to. Two integers give the
/// result of the integer operation, or its error. With a float on either
/// side the result is a float, whatever the operator and the other operand
/// are.
pub open spec fn apply(op: Op, first: Operand, second: Operand) -> Result<Applied, CalcError> {
    match (first, second) {
        (Operand::Integer(x), Operand::Integer(y)) => match integer_result(op, x, y) {
            Ok(value) => Ok(Applied::Integer(value)),
            Err(error) => Err(error),
        },
        _ => Ok(Applied::Float),
    }
}

/// The value that a single operand left on the stack stands for.
pub open spec fn result_of(operand: Operand) -> CalculationResult {
    match operand {
        Operand::Integer(x) => CalculationResult::Integer(x),
        Operand::Float(x) => CalculationResult::Float(x),
    }
}

/// The run of the machine on `tokens`, from the working stack `stack`, whose
/// last element is its top.
///
/// An operand is pushed. An operator takes the top of the stack as its right
/// operand and the value below as its left one, and its result is pushed in
/// their place. The run ends with the tokens, on an error, or at the first
/// operator that meets a float; `rest` is what follows the token at which it
/// ended.
pub open spec fn run(stack: Seq<Operand>, tokens: Seq<Token>) -> Run
    decreases tokens.len(),
{
    if tokens.len() == 0 {
        Run {
            end: if stack.len() == 1 {
                Ok(Halt::Finished(result_of(stack[0])))
            } else {
                Err(CalcError::MalformedSequence)
            },
            rest: tokens,
        }
    } else {
        let rest = tokens.drop_first();
        match tokens[0] {
            Token::Oper(operand) => run(stack.push(operand), rest),
            Token::Operator(op) => {
                if stack.len() < 2 {
                    Run { end: Err(CalcError::MalformedSequence), rest }
                } else {
                    let first = stack[stack.len() - 2];
                    let second = stack[stack.len() - 1];
                    let below = stack.take(stack.len() - 2);
                    match apply(op, first, second) {
                        Ok(Applied::Integer(value)) => run(
                            below.push(Operand::Integer(value)),
                            rest,
                        ),
                        Ok(Applied::Float) => Run {
                            end: Ok(Halt::Suspended { op, first, second, stack: below }),
                            rest,
                        },
                        Err(error) => Run { end: Err(error), rest },
                    }
                }
            },
        }
    }
}

/// The height of the stack after `tokens`, from a stack of height `from`,
/// on a run that nothing cuts short: each operand adds a value, and each
/// operator takes two and gives one.
pub open spec fn height(from: nat, tokens: Seq<Token>) -> int {
    from + tokens.filter(|t: Token| t is Oper).len() - tokens.filter(
        |t: Token| t is Operator,
    ).len()
}

/// Whether `tokens` is well formed for a stack of height `from`: every
/// operator finds two values at least, and one value is left at the end. A
/// postfix expression is a sequence that is well formed for the empty stack.
pub open spec fn well_formed(from: nat, tokens: Seq<Token>) -> bool {
    &&& forall|i: int|
        0 <= i < tokens.len() && #[trigger] tokens[i] is Operator ==> height(from, tokens.take(i))
            >= 2
    &&& height(from, tokens) == 1
}

/// How a call of the machine ended, over the view of what it returned.
pub open spec fn end_of(returned: Result<Evaluation, CalcError>) -> Result<Halt, CalcError> {
    match returned {
        Ok(evaluation) => Ok(evaluation@),
        Err(error) => Err(error),
    }
}

impl Calculator {
    /// Multiplies two integers. With a float on either side it says only that the
    /// result is a float.
    fn multiply(a: Operand, b: Operand) -> (r: Result<Applied, CalcError>)
        ensures
            r == apply(Op::Multiplication, a, b),
    {
        match a {
            Operand::Integer(x) => match b {
                Operand::Float(_) => Ok(Applied::Float),
                Operand::Integer(y) => match x.checked_mul(y) {
                    Some(product) => Ok(Applied::Integer(product)),
                    None => Err(CalcError::Overflow),
                },
            },
            Operand::Float(_) => Ok(Applied::Float),
        }
    }

    /// Adds two integers. With a float on either side it says only that the
    /// result is a float.
    fn add(a: Operand, b: Operand) -> (r: Result<Applied, CalcError>)
        ensures
            r == apply(Op::Addition, a, b),
    {
        match a {
            Operand::Integer(x) => match b {
                Operand::Float(_) => Ok(Applied::Float),
                Operand::Integer(y) => match x.checked_add(y) {
                    Some(sum) => Ok(Applied::Integer(sum)),
                    None => Err(CalcError::Overflow),
                },
            },
            Operand::Float(_) => Ok(Applied::Float),
        }
    }

    /// Subtracts two integers. With a float on either side it says only that the
    /// result is a float.
    fn subtract(a: Operand, b: Operand) -> (r: Result<Applied, CalcError>)
        ensures
            r == apply(Op::Subtraction, a, b),
    {
        match a {
            Operand::Integer(x) => match b {
                Operand::Float(_) => Ok(Applied::Float),
                Operand::Integer(y) => match x.checked_sub(y) {
                    Some(difference) => Ok(Applied::Integer(difference)),
                    None => Err(CalcError::Overflow),
                },
            },
            Operand::Float(_) => Ok(Applied::Float),
        }
    }

    /// Divides two integers, rounding toward zero; a zero divisor is an error.
    /// With a float on either side it says only that the result is a float,
    /// whatever the divisor.
    fn divide(a: Operand, b: Operand) -> (r: Result<Applied, CalcError>)
        ensures
            r == apply(Op::Division, a, b),
    {
        match a {
            Operand::Integer(x) => match b {
                Operand::Float(_) => Ok(Applied::Float),
                Operand::Integer(y) => {
                    if y == 0 {
                        Err(CalcError::DivisionByZero)
                    } else {
                        match x.checked_div(y) {
                            Some(quotient) => Ok(Applied::Integer(quotient)),
                            None => Err(CalcError::Overflow),
                        }
                    }
                },
            },
            Operand::Float(_) => Ok(Applied::Float),
        }
    }

    /// Runs the machine on `tokens` from the given working stack, taking the
    /// tokens from the front one by one.
    fn proceed(stack: Vec<Operand>, tokens: &mut VecDeque<Token>) -> (r: Result<
        Evaluation,
        CalcError,
    >)
        ensures
            end_of(r) == run(stack@, old(tokens)@).end,
            final(tokens)@ == run(stack@, old(tokens)@).rest,
    {
        let mut working = stack;
        while tokens.len() > 0
            invariant
                run(working@, tokens@) == run(stack@, old(tokens)@),
            decreases tokens.len(),
        {
            match tokens.pop_front().unwrap() {
                Token::Operator(op) => {
                    if working.len() < 2 {
                        return Err(CalcError::MalformedSequence);
                    }
                    let ghost before = working@;
                    let second = working.pop().unwrap();
                    let first = working.pop().unwrap();
                    assert(working@ == before.take(before.len() - 2));
                    let applied = match op {
                        Op::Addition => Calculator::add(first, second),
                        Op::Subtraction => Calculator::subtract(first, second),
                        Op::Multiplication => Calculator::multiply(first, second),
                        Op::Division => Calculator::divide(first, second),
                    };
                    match applied {
                        Ok(Applied::Integer(value)) => working.push(Operand::Integer(value)),
                        Ok(Applied::Float) => {
                            return Ok(
                                Evaluation::Suspended { op, first, second, stack: working },
                            );
                        },
                        Err(error) => {
                            return Err(error);
                        },
                    }
                },
                Token::Oper(operand) => working.push(operand),
            }
        }
        if working.len() != 1 {
            return Err(CalcError::MalformedSequence);
        }
        match working.pop().unwrap() {
            Operand::Float(x) => Ok(Evaluation::Finished(CalculationResult::Float(x))),
            Operand::Integer(x) => Ok(Evaluation::Finished(CalculationResult::Integer(x))),
        }
    }

    /// Evaluates `tokens`, a sequence in postfix, from an empty stack. The
    /// tokens are taken from the front of the queue as they are used.
    ///
    /// `Ok(Finished(..))` carries the value of the whole sequence. At the
    /// first operator that meets a floating-point operand the call returns
    /// `Ok(Suspended { .. })`, with the operation that is to be computed in
    /// floating point and the stack below it; [`Calculator::resume`] goes on
    /// from there.
    ///
    /// An error ends the evaluation for good, and the queue keeps what
    /// follows the token that failed: `MalformedSequence` where an operator
    /// finds fewer than two values or the end finds none or several,
    /// `DivisionByZero` where an integer is divided by the integer zero, and
    /// `Overflow` where an integer result does not fit in 64 bits.
    pub fn calculate(tokens: &mut VecDeque<Token>) -> (r: Result<Evaluation, CalcError>)
        ensures
            end_of(r) == run(Seq::empty(), old(tokens)@).end,
            final(tokens)@ == run(Seq::empty(), old(tokens)@).rest,
    {
        Calculator::proceed(Vec::new(), tokens)
    }

    /// Goes on with a suspended evaluation: `stack` is the stack that the
    /// suspension handed out, `value` the bit pattern of the floating-point
    /// result of its operation, and `tokens` the queue as the suspension left
    /// it. The result takes the place of the two operands, as a float.
    pub fn resume(stack: Vec<Operand>, value: u64, tokens: &mut VecDeque<Token>) -> (r: Result<
        Evaluation,
        CalcError,
    >)
        ensures
            end_of(r) == run(stack@.push(Operand::Float(value)), old(tokens)@).end,
            final(tokens)@ == run(stack@.push(Operand::Float(value)), old(tokens)@).rest,
    {
        let mut working = stack;
        working.push(Operand::Float(value));
        Calculator::proceed(working, tokens)
    }
}

} // verus!
