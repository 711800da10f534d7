//! Evaluating Scheme source text: read the program, evaluate its expressions
//! in order in a fresh interpreter, and render the value of the last one.
pub mod bridge;
pub mod budget;
pub mod builtins;
pub mod env;
pub mod environment;
pub mod equality;
pub mod error;
pub mod expr;
pub mod interpreter;
pub mod laws;
pub mod parser;
pub mod position;
pub mod roundtrip;
pub mod semantics;
pub mod text;
pub mod value;

use vstd::prelude::*;
use vstd::string::StringSliceAdditionalSpecFns;

pub use error::EvalError;

use budget::{lemma_initial_state_relimit, law_larger_budget_same_outcome, within_budget};
use env::Interpreter;
use error::ErrorView;
use interpreter::initial_state;
use parser::{read_program, Parser};
use semantics::eval_program;
use value::render;

verus! {

/// How deeply evaluations may nest in `eval_str` and `eval_str_with_output`:
/// the deepest evaluation this allows stays well within a 2 MiB thread stack.
/// A program that needs more (a recursion some hundreds of calls deep, a
/// `do` loop of some thousands of rounds) fails with
/// `EvalError::StepLimitExceeded`; `eval_with_step_limit` takes another bound.
pub const DEFAULT_MAX_STEPS: usize = 2000;

/// What running a program gives: the written form of the value of its last
/// expression and the text it wrote, or the first error, whether the reader's
/// or the evaluator's.
pub open spec fn run(input: Seq<u8>, limit: usize) -> Result<(Seq<char>, Seq<char>), ErrorView> {
    match read_program(input) {
        Err(e) => Err(e),
        Ok(program) => {
            let (st, r) = eval_program(initial_state(limit), program, limit as nat);
            match r {
                Ok(v) => Ok((render(v, st.strings, false), st.output)),
                Err(e) => Err(e),
            }
        },
    }
}

/// A larger step limit does not change the result of a program that did not
/// run into a smaller one.
pub proof fn law_larger_limit_same_result(input: Seq<u8>, l1: usize, l2: usize)
    requires
        l1 <= l2,
        within_budget(run(input, l1)),
    ensures
        run(input, l2) == run(input, l1),
{
    match read_program(input) {
        Ok(program) => {
            lemma_initial_state_relimit(l1, l2);
            if program.len() > 0 {
                law_larger_budget_same_outcome(initial_state(l1), program, 0, l1 as nat, l2 as nat, l2);
            }
        },
        Err(_) => {},
    }
}

/// Evaluates a program with at most `max_steps` nested eval dispatches, and
/// returns the written form of its last value and everything it wrote.
pub fn eval_with_step_limit(input: &str, max_steps: usize) -> (r: Result<(String, String), EvalError>)
    ensures
        match run(input.spec_bytes(), max_steps) {
            Ok((value, output)) => r matches Ok(p) && p.0@ == value && p.1@ == output,
            Err(e) => r matches Err(x) && x@ == e,
        },
{
    let mut parser = Parser::new(input.as_bytes());
    let program = match parser.parse_program() {
        Ok(program) => program,
        Err(e) => return Err(e),
    };
    let mut interpreter = Interpreter::new(max_steps);
    let result = interpreter.eval_program(&program);
    match result {
        Ok(v) => Ok((interpreter.render(&v), interpreter.captured_output())),
        Err(e) => Err(e),
    }
}

/// Evaluates Scheme expressions, returning both the result value and any
/// output produced by `display`, `write`, or `newline`.
///
/// Evaluation is bounded: a program whose evaluations nest more than
/// `DEFAULT_MAX_STEPS` deep (each level of evaluation nested in another, and
/// each round of a `do` loop, uses one unit) fails with
/// `EvalError::StepLimitExceeded` rather than overflowing the stack. `eval_with_step_limit` lets a caller choose
/// the bound.
pub fn eval_str_with_output(input: &str) -> (r: Result<(String, String), EvalError>)
    ensures
        match run(input.spec_bytes(), DEFAULT_MAX_STEPS) {
            Ok((value, output)) => r matches Ok(p) && p.0@ == value && p.1@ == output,
            Err(e) => r matches Err(x) && x@ == e,
        },
{
    eval_with_step_limit(input, DEFAULT_MAX_STEPS)
}

/// Evaluates one or more Scheme expressions and returns the written form of
/// the last result: the first part of what `eval_str_with_output` returns.
///
/// As for `eval_str_with_output`, evaluations may nest at most
/// `DEFAULT_MAX_STEPS` deep; a program that needs more fails with
/// `EvalError::StepLimitExceeded`.
pub fn eval_str(input: &str) -> (r: Result<String, EvalError>)
    ensures
        match run(input.spec_bytes(), DEFAULT_MAX_STEPS) {
            Ok((value, _)) => r matches Ok(s) && s@ == value,
            Err(e) => r matches Err(x) && x@ == e,
        },
{
    match eval_str_with_output(input) {
        Ok((value, _)) => Ok(value),
        Err(e) => Err(e),
    }
}

} // verus!
