//! Evaluation of expressions in a memory.

use vstd::prelude::*;
use crate::ast::{AExpr, AOp, Array, BExpr, LogicOp, RelOp};
use crate::memory::{Memory, MemoryModel};

verus! {

/// Why an expression has no value.
#[derive(Clone, Copy, Debug, PartialEq, Eq, Structural)]
pub enum EvalError {
    DivisionByZero,
    NegativeExponent,
    Overflow,
    IndexOutOfBounds,
    UnknownVariable,
    UnknownArray,
}

/// `a` to the power `n` by repeated multiplication, `None` as soon as a
/// partial product leaves the 64-bit range.
pub open spec fn pow_spec(a: i64, n: nat) -> Option<i64>
    decreases n,
{
    if n == 0 {
        Some(1i64)
    } else {
        match pow_spec(a, (n - 1) as nat) {
            Some(p) => p.checked_mul(a),
            None => None,
        }
    }
}

/// The result of applying an arithmetic operator.
pub open spec fn arith(op: AOp, a: i64, b: i64) -> Result<i64, EvalError> {
    let r = match op {
        AOp::Plus => a.checked_add(b),
        AOp::Minus => a.checked_sub(b),
        AOp::Times => a.checked_mul(b),
        AOp::Divide => a.checked_div(b),
        AOp::Pow => if b < 0 { None } else { pow_spec(a, b as nat) },
    };
    if op == AOp::Divide && b == 0 {
        Err(EvalError::DivisionByZero)
    } else if op == AOp::Pow && b < 0 {
        Err(EvalError::NegativeExponent)
    } else {
        match r {
            Some(v) => Ok(v),
            None => Err(EvalError::Overflow),
        }
    }
}

/// The value of an arithmetic expression; operands are evaluated left to
/// right, and the first failure is the result.
pub open spec fn aeval(e: AExpr, m: MemoryModel) -> Result<i64, EvalError>
    decreases e,
{
    match e {
        AExpr::Number(n) => Ok(n),
        AExpr::Variable(x) => if m.0.contains_key(x@) {
            Ok(m.0[x@])
        } else {
            Err(EvalError::UnknownVariable)
        },
        AExpr::Array(Array(a, i)) => match aeval(*i, m) {
            Err(err) => Err(err),
            Ok(idx) => if !m.1.contains_key(a@) {
                Err(EvalError::UnknownArray)
            } else if idx < 0 || idx >= m.1[a@].len() {
                Err(EvalError::IndexOutOfBounds)
            } else {
                Ok(m.1[a@][idx as int])
            },
        },
        AExpr::Binary(l, op, r) => match aeval(*l, m) {
            Err(err) => Err(err),
            Ok(x) => match aeval(*r, m) {
                Err(err) => Err(err),
                Ok(y) => arith(op, x, y),
            },
        },
        AExpr::Minus(x) => match aeval(*x, m) {
            Err(err) => Err(err),
            Ok(v) => if v == i64::MIN {
                Err(EvalError::Overflow)
            } else {
                Ok((-v) as i64)
            },
        },
    }
}

/// The result of a comparison.
pub open spec fn compare(op: RelOp, a: i64, b: i64) -> bool {
    match op {
        RelOp::Eq => a == b,
        RelOp::Ne => a != b,
        RelOp::Gt => a > b,
        RelOp::Ge => a >= b,
        RelOp::Lt => a < b,
        RelOp::Le => a <= b,
    }
}

/// The value of a boolean expression. `&` and `|` evaluate both operands;
/// `&&` and `||` skip the right operand when the left one decides.
pub open spec fn beval(b: BExpr, m: MemoryModel) -> Result<bool, EvalError>
    decreases b,
{
    match b {
        BExpr::Bool(v) => Ok(v),
        BExpr::Rel(l, op, r) => match aeval(l, m) {
            Err(err) => Err(err),
            Ok(x) => match aeval(r, m) {
                Err(err) => Err(err),
                Ok(y) => Ok(compare(op, x, y)),
            },
        },
        BExpr::Logic(l, op, r) => match beval(*l, m) {
            Err(err) => Err(err),
            Ok(x) => if op == LogicOp::Land && !x {
                Ok(false)
            } else if op == LogicOp::Lor && x {
                Ok(true)
            } else {
                match beval(*r, m) {
                    Err(err) => Err(err),
                    Ok(y) => Ok(if op == LogicOp::And || op == LogicOp::Land {
                        x && y
                    } else {
                        x || y
                    }),
                }
            },
        },
        BExpr::Not(x) => match beval(*x, m) {
            Err(err) => Err(err),
            Ok(v) => Ok(!v),
        },
    }
}

proof fn lemma_pow_one(n: nat)
    ensures
        pow_spec(1, n) == Some(1i64),
    decreases n,
{
    if n > 0 {
        lemma_pow_one((n - 1) as nat);
    }
}

proof fn lemma_pow_zero(n: nat)
    requires
        n > 0,
    ensures
        pow_spec(0, n) == Some(0i64),
    decreases n,
{
    if n > 1 {
        lemma_pow_zero((n - 1) as nat);
    } else {
        assert(pow_spec(0, 0) == Some(1i64));
    }
}

proof fn lemma_pow_minus_one(n: nat)
    ensures
        pow_spec(-1i64, n) == Some(if n % 2 == 0 { 1i64 } else { -1i64 }),
    decreases n,
{
    if n > 0 {
        lemma_pow_minus_one((n - 1) as nat);
    }
}

proof fn lemma_pow_none(a: i64, k: nat, n: nat)
    requires
        k <= n,
        pow_spec(a, k) is None,
    ensures
        pow_spec(a, n) is None,
    decreases n - k,
{
    if k < n {
        lemma_pow_none(a, k, (n - 1) as nat);
    }
}

/// `a` to the power `n`.
fn pow(a: i64, n: i64) -> (r: Option<i64>)
    requires
        n >= 0,
    ensures
        r == pow_spec(a, n as nat),
{
    if a == 1 {
        proof {
            lemma_pow_one(n as nat);
        }
        return Some(1);
    }
    if a == 0 {
        if n == 0 {
            return Some(1);
        }
        proof {
            lemma_pow_zero(n as nat);
        }
        return Some(0);
    }
    if a == -1 {
        proof {
            lemma_pow_minus_one(n as nat);
        }
        return Some(if n % 2 == 0 { 1 } else { -1 });
    }
    let mut acc: i64 = 1;
    let mut k: i64 = 0;
    while k < n
        invariant
            0 <= k <= n,
            pow_spec(a, k as nat) == Some(acc),
        decreases n - k,
    {
        match acc.checked_mul(a) {
            Some(p) => {
                acc = p;
            },
            None => {
                proof {
                    assert(pow_spec(a, (k + 1) as nat) is None);
                    lemma_pow_none(a, (k + 1) as nat, n as nat);
                }
                return None;
            },
        }
        k = k + 1;
    }
    Some(acc)
}

/// Applies an arithmetic operator.
pub fn apply_aop(op: AOp, a: i64, b: i64) -> (r: Result<i64, EvalError>)
    ensures
        r == arith(op, a, b),
{
    let v = match op {
        AOp::Plus => a.checked_add(b),
        AOp::Minus => a.checked_sub(b),
        AOp::Times => a.checked_mul(b),
        AOp::Divide => {
            if b == 0 {
                return Err(EvalError::DivisionByZero);
            }
            a.checked_div(b)
        },
        AOp::Pow => {
            if b < 0 {
                return Err(EvalError::NegativeExponent);
            }
            pow(a, b)
        },
    };
    match v {
        Some(x) => Ok(x),
        None => Err(EvalError::Overflow),
    }
}

/// Applies a relational operator.
pub fn apply_relop(op: RelOp, a: i64, b: i64) -> (r: bool)
    ensures
        r == compare(op, a, b),
{
    match op {
        RelOp::Eq => a == b,
        RelOp::Ne => a != b,
        RelOp::Gt => a > b,
        RelOp::Ge => a >= b,
        RelOp::Lt => a < b,
        RelOp::Le => a <= b,
    }
}

/// Evaluates an arithmetic expression in a memory.
pub fn eval_aexpr(e: &AExpr, m: &Memory) -> (r: Result<i64, EvalError>)
    requires
        m.wf(),
    ensures
        r == aeval(*e, m@),
    decreases e,
{
    match e {
        AExpr::Number(n) => Ok(*n),
        AExpr::Variable(x) => match m.variable(x.as_str()) {
            Some(v) => Ok(v),
            None => Err(EvalError::UnknownVariable),
        },
        AExpr::Array(Array(a, i)) => {
            let idx = eval_aexpr(i, m)?;
            match m.array(a.as_str()) {
                None => Err(EvalError::UnknownArray),
                Some(vals) => {
                    if idx < 0 || idx as u64 >= vals.len() as u64 {
                        Err(EvalError::IndexOutOfBounds)
                    } else {
                        let k = idx as u64;
                        Ok(vals[k as usize])
                    }
                },
            }
        },
        AExpr::Binary(l, op, r) => {
            let x = eval_aexpr(l, m)?;
            let y = eval_aexpr(r, m)?;
            apply_aop(*op, x, y)
        },
        AExpr::Minus(x) => {
            let v = eval_aexpr(x, m)?;
            if v == i64::MIN {
                Err(EvalError::Overflow)
            } else {
                Ok(-v)
            }
        },
    }
}

/// Evaluates a boolean expression in a memory.
pub fn eval_bexpr(b: &BExpr, m: &Memory) -> (r: Result<bool, EvalError>)
    requires
        m.wf(),
    ensures
        r == beval(*b, m@),
    decreases b,
{
    match b {
        BExpr::Bool(v) => Ok(*v),
        BExpr::Rel(l, op, r) => {
            let x = eval_aexpr(l, m)?;
            let y = eval_aexpr(r, m)?;
            Ok(apply_relop(*op, x, y))
        },
        BExpr::Logic(l, op, r) => {
            let x = eval_bexpr(l, m)?;
            if *op == LogicOp::Land && !x {
                return Ok(false);
            }
            if *op == LogicOp::Lor && x {
                return Ok(true);
            }
            let y = eval_bexpr(r, m)?;
            if *op == LogicOp::And || *op == LogicOp::Land {
                Ok(x && y)
            } else {
                Ok(x || y)
            }
        },
        BExpr::Not(x) => {
            let v = eval_bexpr(x, m)?;
            Ok(!v)
        },
    }
}

} // verus!
