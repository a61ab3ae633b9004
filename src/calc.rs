//! The arithmetic analysis: the value of an expression without variables,
//! or why it has none.

use vstd::prelude::*;
use vstd::string::*;
use crate::ast::AExpr;
use crate::memory::Memory;
use crate::names::str_eq;
use crate::render::{int_text, write_int};
use crate::semantics::{EvalError, aeval, eval_aexpr};
use crate::validator::ValidationResult;

verus! {

/// The value of an expression as text, or the reason it has none; the
/// other field is empty.
#[derive(Debug)]
pub struct CalcOutput {
    pub result: String,
    pub error: String,
}

/// The text of an evaluation failure.
pub open spec fn error_text(e: EvalError) -> Seq<char> {
    match e {
        EvalError::DivisionByZero => "division by zero"@,
        EvalError::NegativeExponent => "negative exponent"@,
        EvalError::Overflow => "arithmetic overflow"@,
        EvalError::IndexOutOfBounds => "index out of bounds"@,
        EvalError::UnknownVariable => "unknown variable"@,
        EvalError::UnknownArray => "unknown array"@,
    }
}

pub open spec fn empty_memory() -> crate::memory::MemoryModel {
    (Map::empty(), Map::empty())
}

impl EvalError {
    /// The text of the failure.
    pub fn text(&self) -> (r: String)
        ensures
            r@ == error_text(*self),
            r@.len() > 0,
    {
        proof {
            reveal_strlit("division by zero");
            reveal_strlit("negative exponent");
            reveal_strlit("arithmetic overflow");
            reveal_strlit("index out of bounds");
            reveal_strlit("unknown variable");
            reveal_strlit("unknown array");
        }
        match self {
            EvalError::DivisionByZero => String::from_str("division by zero"),
            EvalError::NegativeExponent => String::from_str("negative exponent"),
            EvalError::Overflow => String::from_str("arithmetic overflow"),
            EvalError::IndexOutOfBounds => String::from_str("index out of bounds"),
            EvalError::UnknownVariable => String::from_str("unknown variable"),
            EvalError::UnknownArray => String::from_str("unknown array"),
        }
    }
}

/// The reference output for `e`: its value as text and no error, or no
/// value and the text of the failure.
pub open spec fn reference_output(e: AExpr) -> (Seq<char>, Seq<char>) {
    match aeval(e, empty_memory()) {
        Ok(v) => (int_text(v), Seq::empty()),
        Err(err) => (Seq::empty(), error_text(err)),
    }
}

/// Evaluates `e` in the empty memory.
pub fn calc_run(e: &AExpr) -> (r: CalcOutput)
    ensures
        r.result@ == reference_output(*e).0,
        r.error@ == reference_output(*e).1,
        r.error@.len() > 0 <==> aeval(*e, empty_memory()) is Err,
{
    let m = Memory::new();
    assert(m@ == empty_memory());
    match eval_aexpr(e, &m) {
        Ok(v) => {
            let mut result = String::new();
            write_int(v, &mut result);
            assert(result@ =~= int_text(v));
            CalcOutput { result, error: String::new() }
        },
        Err(err) => CalcOutput { result: String::new(), error: err.text() },
    }
}

/// Why a candidate output differs: both outputs, quoted.
pub open spec fn mismatch_text(result: Seq<char>, error: Seq<char>, ref_result: Seq<char>, ref_error: Seq<char>) -> Seq<char> {
    "Did not produce same as reference. Output: result=\""@ + result + "\", error=\""@ + error
        + "\"; Reference: result=\""@ + ref_result + "\", error=\""@ + ref_error + "\""@
}

/// The verdict on a candidate output for `e`: when the reference fails,
/// correct exactly when the candidate reports an error too, whatever its
/// text; otherwise correct exactly when both give the same result.
pub open spec fn calc_verdict(e: AExpr, result: Seq<char>, error: Seq<char>) -> crate::validator::Verdict {
    let reference = reference_output(e);
    if (reference.1.len() > 0 && error.len() > 0) || (reference.1.len() == 0 && reference.0 == result) {
        crate::validator::Verdict::CorrectTerminated
    } else {
        crate::validator::Verdict::Mismatch(mismatch_text(result, error, reference.0, reference.1))
    }
}

/// The reference output is always accepted, also when the expression
/// fails to evaluate.
pub proof fn lemma_calc_accepts_reference(e: AExpr)
    ensures
        calc_verdict(e, reference_output(e).0, reference_output(e).1)
            == crate::validator::Verdict::CorrectTerminated,
{
}

/// Judges a candidate output against the reference.
pub fn calc_validate(e: &AExpr, output: &CalcOutput) -> (r: ValidationResult)
    ensures
        r@ == calc_verdict(*e, output.result@, output.error@),
{
    let reference = calc_run(e);
    proof {
        match aeval(*e, empty_memory()) {
            Ok(v) => {},
            Err(err) => {
                error_text_nonempty(err);
            },
        }
    }
    let reference_failed = reference.error.unicode_len() > 0;
    let both_failed = reference_failed && output.error.unicode_len() > 0;
    let same = !reference_failed && str_eq(reference.result.as_str(), output.result.as_str());
    if both_failed || same {
        ValidationResult::CorrectTerminated
    } else {
        let mut reason = String::from_str("Did not produce same as reference. Output: result=\"");
        reason.append(output.result.as_str());
        reason.append("\", error=\"");
        reason.append(output.error.as_str());
        reason.append("\"; Reference: result=\"");
        reason.append(reference.result.as_str());
        reason.append("\", error=\"");
        reason.append(reference.error.as_str());
        reason.append("\"");
        ValidationResult::Mismatch { reason }
    }
}

proof fn error_text_nonempty(e: EvalError)
    ensures
        error_text(e).len() > 0,
{
    reveal_strlit("division by zero");
    reveal_strlit("negative exponent");
    reveal_strlit("arithmetic overflow");
    reveal_strlit("index out of bounds");
    reveal_strlit("unknown variable");
    reveal_strlit("unknown array");
}

} // verus!
