use rand::SeedableRng;
use gcl_core::ast::{AExpr, AOp, Array, BExpr, LogicOp, RelOp};
use gcl_core::calc::{calc_run, calc_validate, CalcOutput};
use gcl_core::memory::Memory;
use gcl_core::semantics::{eval_aexpr, eval_bexpr, EvalError};
use gcl_core::validator::ValidationResult;

fn bin(l: AExpr, op: AOp, r: AExpr) -> AExpr {
    AExpr::Binary(Box::new(l), op, Box::new(r))
}

fn num(n: i64) -> AExpr {
    AExpr::Number(n)
}

#[test]
fn arithmetic_values() {
    let m = Memory::new();
    assert_eq!(eval_aexpr(&bin(num(2), AOp::Pow, num(10)), &m), Ok(1024));
    assert_eq!(eval_aexpr(&bin(num(-7), AOp::Divide, num(2)), &m), Ok(-3));
    assert_eq!(eval_aexpr(&bin(num(3), AOp::Minus, num(5)), &m), Ok(-2));
    assert_eq!(eval_aexpr(&bin(num(-1), AOp::Pow, num(1_000_000_001)), &m), Ok(-1));
    assert_eq!(eval_aexpr(&bin(num(0), AOp::Pow, num(0)), &m), Ok(1));
    assert_eq!(eval_aexpr(&AExpr::Minus(Box::new(num(4))), &m), Ok(-4));
}

#[test]
fn arithmetic_failures() {
    let m = Memory::new();
    assert_eq!(eval_aexpr(&bin(num(1), AOp::Divide, num(0)), &m), Err(EvalError::DivisionByZero));
    assert_eq!(eval_aexpr(&bin(num(2), AOp::Pow, num(-1)), &m), Err(EvalError::NegativeExponent));
    assert_eq!(eval_aexpr(&bin(num(i64::MAX), AOp::Plus, num(1)), &m), Err(EvalError::Overflow));
    assert_eq!(eval_aexpr(&bin(num(2), AOp::Pow, num(64)), &m), Err(EvalError::Overflow));
    assert_eq!(eval_aexpr(&AExpr::Variable("x".to_string()), &m), Err(EvalError::UnknownVariable));
    assert_eq!(
        eval_aexpr(&AExpr::Array(Array("A".to_string(), Box::new(num(0)))), &m),
        Err(EvalError::UnknownArray)
    );
    let mut m = Memory::new();
    m.set_array("A".to_string(), vec![4, 5]);
    assert_eq!(eval_aexpr(&AExpr::Array(Array("A".to_string(), Box::new(num(1)))), &m), Ok(5));
    assert_eq!(
        eval_aexpr(&AExpr::Array(Array("A".to_string(), Box::new(num(2)))), &m),
        Err(EvalError::IndexOutOfBounds)
    );
    assert_eq!(
        eval_aexpr(&AExpr::Array(Array("A".to_string(), Box::new(num(-1)))), &m),
        Err(EvalError::IndexOutOfBounds)
    );
}

#[test]
fn short_circuit_operators() {
    let m = Memory::new();
    let fails = BExpr::Rel(bin(num(1), AOp::Divide, num(0)), RelOp::Eq, num(0));
    let f = || BExpr::Bool(false);
    let lazy = BExpr::Logic(Box::new(f()), LogicOp::Land, Box::new(fails.copy()));
    assert_eq!(eval_bexpr(&lazy, &m), Ok(false));
    let strict = BExpr::Logic(Box::new(f()), LogicOp::And, Box::new(fails.copy()));
    assert_eq!(eval_bexpr(&strict, &m), Err(EvalError::DivisionByZero));
    let lazy_or = BExpr::Logic(Box::new(BExpr::Bool(true)), LogicOp::Lor, Box::new(fails.copy()));
    assert_eq!(eval_bexpr(&lazy_or, &m), Ok(true));
    let strict_or = BExpr::Logic(Box::new(BExpr::Bool(true)), LogicOp::Or, Box::new(fails));
    assert_eq!(eval_bexpr(&strict_or, &m), Err(EvalError::DivisionByZero));
    assert_eq!(eval_bexpr(&BExpr::Not(Box::new(f())), &m), Ok(true));
}

#[test]
fn memories_compare_as_maps() {
    let mut a = Memory::new();
    a.set_variable("x".to_string(), 1);
    a.set_variable("y".to_string(), 2);
    let mut b = Memory::new();
    b.set_variable("y".to_string(), 2);
    b.set_variable("x".to_string(), 1);
    assert!(a.same_as(&b));
    b.set_variable("x".to_string(), 3);
    assert!(!a.same_as(&b));
    assert_eq!(b.variable("x"), Some(3));
}

#[test]
fn calc_values_and_errors() {
    let out = calc_run(&bin(num(6), AOp::Times, num(-7)));
    assert_eq!(out.result, "-42");
    assert_eq!(out.error, "");
    let out = calc_run(&bin(num(1), AOp::Divide, num(0)));
    assert_eq!(out.result, "");
    assert_eq!(out.error, "division by zero");
    assert_eq!(EvalError::Overflow.text(), "arithmetic overflow");
}

#[test]
fn calc_validation() {
    let e = bin(num(2), AOp::Plus, num(2));
    let good = CalcOutput { result: "4".to_string(), error: String::new() };
    assert!(matches!(calc_validate(&e, &good), ValidationResult::CorrectTerminated));
    let bad = CalcOutput { result: "5".to_string(), error: String::new() };
    match calc_validate(&e, &bad) {
        ValidationResult::Mismatch { reason } => assert_eq!(
            reason,
            "Did not produce same as reference. Output: result=\"5\", error=\"\"; Reference: result=\"4\", error=\"\""
        ),
        other => panic!("unexpected verdict {:?}", other),
    }
    let failing = bin(num(1), AOp::Divide, num(0));
    let other_error = CalcOutput { result: String::new(), error: "oops".to_string() };
    assert!(matches!(calc_validate(&failing, &other_error), ValidationResult::CorrectTerminated));
    let no_error = CalcOutput { result: String::new(), error: String::new() };
    assert!(matches!(calc_validate(&failing, &no_error), ValidationResult::Mismatch { .. }));
}

#[test]
fn calc_reference_accepts_itself() {
    for seed in 0..30u64 {
        let mut rng = rand::rngs::SmallRng::seed_from_u64(seed);
        let e = gcl_core::generation::generate_calc_input(&mut rng);
        let out = calc_run(&e);
        assert!(matches!(calc_validate(&e, &out), ValidationResult::CorrectTerminated));
    }
}
