//! Left-to-right reduction of a symbol sequence to a single value.
//!
//! The evaluator keeps a running accumulator and a single pending operator.
//! A value symbol either seeds the accumulator (no operator pending) or is
//! combined with it; an operator symbol overwrites the pending slot. There is
//! no precedence and no nesting, so one pass with constant extra state
//! suffices.

use vstd::prelude::*;

use crate::parser::{OperatorKind, Symbol};

verus! {

/// The message returned when the input ends while an operator still waits
/// for its right-hand operand.
pub open spec fn trailing_operator_message() -> Seq<char> {
    "Expecting another number, but input finished with an operator"@
}

/// The value a symbol carries; operators carry none.
pub open spec fn symbol_value(s: Symbol) -> u64 {
    match s {
        Symbol::Quantity(v) => v,
        Symbol::Number(v) => v,
        Symbol::Operator(_) => 0,
    }
}

/// The exact integer an operator produces from two operands; division is the
/// truncating division of non-negative integers.
pub open spec fn apply_op_value(op: OperatorKind, a: int, b: int) -> int {
    match op {
        OperatorKind::Add => a + b,
        OperatorKind::Subtract => a - b,
        OperatorKind::Multiply => a * b,
        OperatorKind::Divide => a / b,
    }
}

/// Whether applying `op` to `a` and `b` divides by nothing and stays within
/// `u64`. Outside of this the evaluator has no result: such a step is an
/// arithmetic fault, not a recoverable error.
pub open spec fn apply_op_ok(op: OperatorKind, a: u64, b: u64) -> bool {
    &&& (op is Divide ==> b != 0)
    &&& 0 <= apply_op_value(op, a as int, b as int) <= u64::MAX
}

/// Runs the evaluator over `tokens` from accumulator `acc` and pending
/// operator `pending`; yields the final accumulator and pending operator, or
/// `None` as soon as a step would fault.
pub open spec fn eval_rest(
    tokens: Seq<Symbol>,
    acc: u64,
    pending: Option<OperatorKind>,
) -> Option<(u64, Option<OperatorKind>)>
    decreases tokens.len(),
{
    if tokens.len() == 0 {
        Some((acc, pending))
    } else {
        let rest = tokens.skip(1);
        match tokens[0] {
            Symbol::Operator(op) => eval_rest(rest, acc, Some(op)),
            _ => {
                let v = symbol_value(tokens[0]);
                match pending {
                    Some(op) => if apply_op_ok(op, acc, v) {
                        eval_rest(rest, apply_op_value(op, acc as int, v as int) as u64, None)
                    } else {
                        None
                    },
                    None => eval_rest(rest, v, None),
                }
            },
        }
    }
}

/// What evaluation of `tokens` yields when no step faults: the final
/// accumulator, or the trailing-operator error.
pub open spec fn eval_result(tokens: Seq<Symbol>) -> Option<Result<u64, Seq<char>>> {
    match eval_rest(tokens, 0, None) {
        Some((acc, pending)) => Some(
            if pending is Some {
                Err(trailing_operator_message())
            } else {
                Ok(acc)
            },
        ),
        None => None,
    }
}

/// Applies a single operator to two already-reduced operands.
fn apply_op(op: OperatorKind, a: u64, b: u64) -> (r: u64)
    requires
        apply_op_ok(op, a, b),
    ensures
        r == apply_op_value(op, a as int, b as int),
{
    match op {
        OperatorKind::Add => a + b,
        OperatorKind::Subtract => a - b,
        OperatorKind::Multiply => a * b,
        OperatorKind::Divide => a / b,
    }
}

/// Like [`apply_op`], but yields `None` instead of faulting on division by
/// zero or a result outside `u64`.
fn apply_op_checked(op: OperatorKind, a: u64, b: u64) -> (r: Option<u64>)
    ensures
        (match r {
            Some(x) => apply_op_ok(op, a, b) && x == apply_op_value(op, a as int, b as int),
            None => !apply_op_ok(op, a, b),
        }),
{
    match op {
        OperatorKind::Add => a.checked_add(b),
        OperatorKind::Subtract => a.checked_sub(b),
        OperatorKind::Multiply => a.checked_mul(b),
        OperatorKind::Divide => {
            let r = a.checked_div(b);
            proof {
                if b != 0 {
                    vstd::arithmetic::div_mod::lemma_div_is_ordered(0, a as int, b as int);
                    vstd::arithmetic::div_mod::lemma_div_nonincreasing(a as int, b as int);
                }
            }
            r
        },
    }
}

/// Reduces `input` strictly left to right. A value symbol with no pending
/// operator replaces the accumulator; with one, it is combined into it; an
/// operator symbol overwrites the pending slot. An empty input yields `0`;
/// an input ending with an unconsumed operator yields the trailing-operator
/// error, the only error this function produces.
pub fn calculate(input: Vec<Symbol>) -> (r: Result<u64, &'static str>)
    requires
        eval_rest(input@, 0, None) is Some,
    ensures
        (match r {
            Ok(v) => eval_result(input@) == Some(Ok::<u64, Seq<char>>(v)),
            Err(m) => {
                &&& m@ == trailing_operator_message()
                &&& eval_result(input@) == Some(Err::<u64, Seq<char>>(m@))
            },
        }),
{
    let n: usize = input.len();
    let mut result: u64 = 0;
    let mut last_operator: Option<OperatorKind> = None;
    let mut i: usize = 0;

    proof {
        assert(input@.skip(0) =~= input@);
    }
    while i < n
        invariant
            n == input@.len(),
            i <= n,
            eval_rest(input@, 0, None) is Some,
            eval_rest(input@.skip(i as int), result, last_operator) == eval_rest(input@, 0, None),
        decreases n - i,
    {
        proof {
            assert(input@.skip(i as int).skip(1) =~= input@.skip(i as int + 1));
            assert(input@.skip(i as int)[0] == input@[i as int]);
        }
        let symbol = input[i];
        match symbol {
            Symbol::Quantity(quantity) => match last_operator {
                Some(op) => {
                    result = apply_op(op, result, quantity);
                    last_operator = None;
                },
                None => {
                    result = quantity;
                },
            },
            Symbol::Number(number) => match last_operator {
                Some(op) => {
                    result = apply_op(op, result, number);
                    last_operator = None;
                },
                None => {
                    result = number;
                },
            },
            Symbol::Operator(op) => {
                last_operator = Some(op);
            },
        }
        i = i + 1;
    }

    proof {
        assert(input@.skip(n as int) =~= Seq::<Symbol>::empty());
    }

    if last_operator.is_some() {
        return Err("Expecting another number, but input finished with an operator");
    }

    Ok(result)
}

/// Like [`calculate`], but checks each arithmetic step: on division by zero
/// or a result outside `u64` it yields `None` where `calculate` may not be
/// called at all.
pub fn calculate_checked(input: Vec<Symbol>) -> (r: Option<Result<u64, &'static str>>)
    ensures
        (match r {
            None => eval_result(input@) is None,
            Some(res) => match res {
                Ok(v) => eval_result(input@) == Some(Ok::<u64, Seq<char>>(v)),
                Err(m) => {
                    &&& m@ == trailing_operator_message()
                    &&& eval_result(input@) == Some(Err::<u64, Seq<char>>(m@))
                },
            },
        }),
{
    let n: usize = input.len();
    let mut result: u64 = 0;
    let mut last_operator: Option<OperatorKind> = None;
    let mut i: usize = 0;

    proof {
        assert(input@.skip(0) =~= input@);
    }
    while i < n
        invariant
            n == input@.len(),
            i <= n,
            eval_rest(input@.skip(i as int), result, last_operator) == eval_rest(input@, 0, None),
        decreases n - i,
    {
        proof {
            assert(input@.skip(i as int).skip(1) =~= input@.skip(i as int + 1));
            assert(input@.skip(i as int)[0] == input@[i as int]);
        }
        let symbol = input[i];
        match symbol {
            Symbol::Quantity(quantity) => match last_operator {
                Some(op) => {
                    match apply_op_checked(op, result, quantity) {
                        Some(combined) => {
                            result = combined;
                            last_operator = None;
                        },
                        None => {
                            return None;
                        },
                    }
                },
                None => {
                    result = quantity;
                },
            },
            Symbol::Number(number) => match last_operator {
                Some(op) => {
                    match apply_op_checked(op, result, number) {
                        Some(combined) => {
                            result = combined;
                            last_operator = None;
                        },
                        None => {
                            return None;
                        },
                    }
                },
                None => {
                    result = number;
                },
            },
            Symbol::Operator(op) => {
                last_operator = Some(op);
            },
        }
        i = i + 1;
    }

    proof {
        assert(input@.skip(n as int) =~= Seq::<Symbol>::empty());
    }

    if last_operator.is_some() {
        return Some(Err("Expecting another number, but input finished with an operator"));
    }

    Some(Ok(result))
}

} // verus!

