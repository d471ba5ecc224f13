//! A small embedded expression language: tokenizer, parser, value model,
//! environment, evaluator and arithmetic primitives.
pub mod convert;
pub mod environment;
pub mod equality;
pub mod eval;
pub mod parse;
pub mod primitives;
pub mod tokenize;
pub mod types;
pub mod written;

use crate::environment::Environment;
use crate::eval::{eval, eval_spec, CALL_DEPTH};
use crate::parse::{parse, parsed};
use crate::primitives::{core_bindings, create_core_environment};
use crate::tokenize::tokens_of;
use crate::types::{result_view, RispResult, Value};
use vstd::prelude::*;
use vstd::string::StringExecFns;

verus! {

/// What evaluating the first expression of `code` in `env` gives, and the
/// environment after it. Text that does not parse leaves `env` as it is.
pub open spec fn run(code: Seq<char>, env: Seq<(Seq<char>, Value)>) -> (
    Result<Value, Seq<char>>,
    Seq<(Seq<char>, Value)>,
) {
    match parsed(tokens_of(code)) {
        Ok(ast) => eval_spec(ast, env, CALL_DEPTH as nat),
        Err(e) => (Err(e), env),
    }
}

/// The text of a script as one expression: its forms in a `do` block.
pub open spec fn script_text(code: Seq<char>) -> Seq<char> {
    "(do "@ + code + ")"@
}

/// Evaluates the first expression of `risp_code` in a fresh starter
/// environment.
pub fn eval_risp(risp_code: &str) -> (r: RispResult)
    ensures
        result_view(r) == run(risp_code@, core_bindings()).0,
{
    let mut env = create_core_environment();
    eval_risp_for_env(risp_code, &mut env)
}

/// Evaluates the first expression of `risp_code` in `env`.
pub fn eval_risp_for_env(risp_code: &str, env: &mut Environment) -> (r: RispResult)
    ensures
        (result_view(r), final(env)@) == run(risp_code@, old(env)@),
{
    match parse(risp_code) {
        Ok(ast) => eval(ast, env),
        Err(e) => Err(e),
    }
}

/// Evaluates all the expressions of `risp_code` in `env`, one after the
/// other; gives the value of the last.
pub fn eval_risp_script(risp_code: &str, env: &mut Environment) -> (r: RispResult)
    ensures
        (result_view(r), final(env)@) == run(script_text(risp_code@), old(env)@),
{
    let text = String::from_str("(do ").concat(risp_code).concat(")");
    eval_risp_for_env(text.as_str(), env)
}

} // verus!
