//! What evaluating an expression does, stated over the mathematical forms of
//! expressions, values and the interpreter's state.
//!
//! Evaluation is bounded by a budget of nested eval dispatches: each
//! evaluation of an expression uses one unit for the evaluations nested in
//! it, and evaluating with no budget left is the step-limit error.
use vstd::prelude::*;

use super::builtins::{builtin_call, done, new_string, Outcome, SArg};
use super::env::{binding_frame, define, define_all, lookup, new_frame, SState, alloc_string};
use super::error::{arity_error, error_at, syntax_error, ErrorView};
use super::expr::{sexpr_pos, SExpr};
use super::position::SourcePos;
use super::text::nat_text;
use super::value::{truthy, SValue};

verus! {

pub type ValuesOutcome = (SState, Result<Seq<SValue>, ErrorView>);

pub type ArgsOutcome = (SState, Result<Seq<SArg>, ErrorView>);

pub open spec fn step_limit(st: SState) -> ErrorView {
    ErrorView::StepLimitExceeded(st.limit)
}

/// The names of a parameter list, from index `i` on; each must be a symbol.
pub open spec fn parse_params(es: Seq<SExpr>, i: int, acc: Seq<Seq<char>>) -> Result<Seq<Seq<char>>, ErrorView>
    decreases es.len() - i,
{
    if i < 0 || i >= es.len() {
        Ok(acc)
    } else {
        match es[i] {
            SExpr::Symbol(name, dot_pos) => if name == "."@ {
                if i + 1 >= es.len() {
                    Err(syntax_error(dot_pos, "rest parameter requires a name"@))
                } else {
                    match es[i + 1] {
                        SExpr::Symbol(rest, rest_pos) => if rest == "."@ {
                            Err(syntax_error(rest_pos, "parameters must be symbols"@))
                        } else if i + 2 < es.len() {
                            Err(syntax_error(dot_pos, "rest parameter must be last"@))
                        } else {
                            Ok(acc.push(Seq::empty()).push(rest))
                        },
                        other => Err(syntax_error(sexpr_pos(other), "parameters must be symbols"@)),
                    }
                }
            } else {
                parse_params(es, i + 1, acc.push(name))
            },
            other => Err(syntax_error(sexpr_pos(other), "parameters must be symbols"@)),
        }
    }
}

/// Whether a parameter list ends in a rest parameter. A parameter list
/// written `(a b . rest)` is kept as `a`, `b`, an empty name (which no
/// symbol has) and `rest`.
pub open spec fn takes_rest(params: Seq<Seq<char>>) -> bool {
    params.len() >= 2 && params[params.len() - 2].len() == 0
}

/// The names a call binds: the parameters before the rest marker, then the
/// rest parameter.
pub open spec fn bound_names(params: Seq<Seq<char>>) -> Seq<Seq<char>> {
    params.take(params.len() - 2).push(params.last())
}

/// The values a call binds: the first arguments, one for each parameter
/// before the rest marker, then the list of the others.
pub open spec fn bound_values(params: Seq<Seq<char>>, values: Seq<SValue>) -> Seq<SValue> {
    values.take(params.len() - 2).push(SValue::List(values.skip(params.len() - 2)))
}

/// The names and value expressions of `let` bindings, from index `i` on.
pub open spec fn parse_bindings(
    es: Seq<SExpr>,
    i: int,
    names: Seq<Seq<char>>,
    exprs: Seq<SExpr>,
) -> Result<(Seq<Seq<char>>, Seq<SExpr>), ErrorView>
    decreases es.len() - i,
{
    if i < 0 || i >= es.len() {
        Ok((names, exprs))
    } else {
        match es[i] {
            SExpr::List(binding, binding_pos) => if binding.len() != 2 {
                Err(syntax_error(binding_pos, "let binding must have exactly 2 elements"@))
            } else {
                match binding[0] {
                    SExpr::Symbol(name, _) => parse_bindings(es, i + 1, names.push(name), exprs.push(binding[1])),
                    other => Err(syntax_error(sexpr_pos(other), "let binding name must be a symbol"@)),
                }
            },
            other => Err(syntax_error(sexpr_pos(other), "let bindings must be lists"@)),
        }
    }
}

/// The value that `(quote e)` stands for; each string in it is a new string.
pub open spec fn quote_datum(st: SState, e: SExpr) -> (SState, SValue)
    decreases e, 0int,
{
    match e {
        SExpr::Integer(v, _) => (st, SValue::Integer(v)),
        SExpr::Boolean(b, _) => (st, SValue::Boolean(b)),
        SExpr::String(s, _) => {
            let (st2, h) = alloc_string(st, s);
            (st2, SValue::Str(h))
        },
        SExpr::Character(c, _) => (st, SValue::Character(c)),
        SExpr::Symbol(name, _) => (st, SValue::Symbol(name)),
        SExpr::List(items, _) => {
            let (st2, vs) = quote_from(st, items, 0, Seq::empty());
            (st2, SValue::List(vs))
        },
    }
}

pub open spec fn quote_from(st: SState, items: Seq<SExpr>, i: int, acc: Seq<SValue>) -> (SState, Seq<SValue>)
    decreases items, items.len() - i,
{
    if i < 0 || i >= items.len() {
        (st, acc)
    } else {
        let (st2, v) = quote_datum(st, items[i]);
        quote_from(st2, items, i + 1, acc.push(v))
    }
}

pub open spec fn eval_quote(st: SState, args: Seq<SExpr>, pos: SourcePos) -> Outcome {
    if args.len() != 1 {
        done(st, Err(syntax_error(pos, "quote expects exactly 1 argument"@)))
    } else {
        let (st2, v) = quote_datum(st, args[0]);
        done(st2, Ok(v))
    }
}

pub open spec fn eval_lambda(args: Seq<SExpr>, env: usize, pos: SourcePos) -> Result<SValue, ErrorView> {
    if args.len() < 2 {
        Err(syntax_error(pos, "lambda expects a parameter list and body"@))
    } else {
        match args[0] {
            SExpr::List(params, _) => match parse_params(params, 0, Seq::empty()) {
                Ok(names) => Ok(SValue::Closure(names, args.skip(1), env)),
                Err(e) => Err(e),
            },
            other => Err(syntax_error(sexpr_pos(other), "lambda parameters must be a list"@)),
        }
    }
}

/// Evaluates `e` in frame `env` with `d` nested eval dispatches left.
pub open spec fn eval_expr(st: SState, e: SExpr, env: usize, d: nat) -> Outcome
    decreases d, 0int, 0int,
{
    if d == 0 {
        done(st, Err(step_limit(st)))
    } else {
        match e {
            SExpr::Integer(v, _) => done(st, Ok(SValue::Integer(v))),
            SExpr::Boolean(b, _) => done(st, Ok(SValue::Boolean(b))),
            SExpr::String(s, _) => new_string(st, s),
            SExpr::Character(c, _) => done(st, Ok(SValue::Character(c))),
            SExpr::Symbol(name, pos) => match lookup(st.frames, env as int, name) {
                Some(v) => done(st, Ok(v)),
                None => done(st, Err(error_at(pos, "unbound variable: "@ + name))),
            },
            SExpr::List(items, pos) => eval_list(st, items, pos, env, (d - 1) as nat),
        }
    }
}

/// Evaluates the operator and applies it, or runs a special form.
pub open spec fn eval_list(st: SState, items: Seq<SExpr>, pos: SourcePos, env: usize, d: nat) -> Outcome
    decreases d, 20int, 0int,
{
    if items.len() == 0 {
        done(st, Err(syntax_error(pos, "cannot evaluate empty list"@)))
    } else {
        let op = items[0];
        let args = items.skip(1);
        match op {
            SExpr::Symbol(name, op_pos) => if name == "define"@ {
                eval_define(st, args, env, op_pos, d)
            } else if name == "set!"@ {
                eval_set(st, args, env, op_pos, d)
            } else if name == "if"@ {
                eval_if(st, args, env, op_pos, d)
            } else if name == "quote"@ {
                eval_quote(st, args, op_pos)
            } else if name == "lambda"@ {
                done(st, eval_lambda(args, env, op_pos))
            } else if name == "begin"@ {
                seq_from(st, args, 0, SValue::Void, env, d)
            } else if name == "let"@ {
                eval_let(st, args, env, op_pos, d)
            } else if name == "let*"@ {
                eval_let_star(st, args, env, op_pos, d, false, "let*"@)
            } else if name == "letrec"@ {
                eval_let_star(st, args, env, op_pos, d, true, "letrec"@)
            } else if name == "letrec*"@ {
                eval_let_star(st, args, env, op_pos, d, true, "letrec*"@)
            } else if name == "cond"@ {
                eval_cond(st, args, env, op_pos, d)
            } else if name == "case"@ {
                eval_case(st, args, env, op_pos, d)
            } else if name == "do"@ {
                eval_do(st, args, env, op_pos, d)
            } else if name == "and"@ {
                and_from(st, args, 0, SValue::Boolean(true), env, d)
            } else if name == "or"@ {
                or_from(st, args, 0, SValue::Boolean(false), env, d)
            } else {
                let (st1, r) = eval_expr(st, op, env, d);
                match r {
                    Ok(f) => apply(st1, f, op_pos, args, env, d),
                    Err(e) => done(st1, Err(e)),
                }
            },
            _ => {
                let (st1, r) = eval_expr(st, op, env, d);
                match r {
                    Ok(f) => apply(st1, f, sexpr_pos(op), args, env, d),
                    Err(e) => done(st1, Err(e)),
                }
            },
        }
    }
}

pub open spec fn eval_define(st: SState, args: Seq<SExpr>, env: usize, pos: SourcePos, d: nat) -> Outcome
    decreases d, 15int, 0int,
{
    if args.len() < 2 {
        done(st, Err(syntax_error(pos, "define expects a target and value"@)))
    } else {
        match args[0] {
            SExpr::Symbol(name, _) => if args.len() != 2 {
                done(st, Err(syntax_error(pos, "define variable form expects exactly one value expression"@)))
            } else {
                let (st1, r) = eval_expr(st, args[1], env, d);
                match r {
                    Ok(v) => done(define(st1, env as int, name, v), Ok(SValue::Void)),
                    Err(e) => done(st1, Err(e)),
                }
            },
            SExpr::List(signature, signature_pos) => if signature.len() == 0 {
                done(st, Err(syntax_error(signature_pos, "define function form requires a function name"@)))
            } else {
                match signature[0] {
                    SExpr::Symbol(name, _) => match parse_params(signature, 1, Seq::empty()) {
                        Ok(params) => {
                            let body = args.skip(1);
                            if body.len() == 0 {
                                done(st, Err(syntax_error(pos, "define function form requires a body"@)))
                            } else {
                                done(
                                    define(st, env as int, name, SValue::Closure(params, body, env)),
                                    Ok(SValue::Void),
                                )
                            }
                        },
                        Err(e) => done(st, Err(e)),
                    },
                    other => done(st, Err(syntax_error(sexpr_pos(other), "function name must be a symbol"@))),
                }
            },
            other => done(st, Err(syntax_error(sexpr_pos(other), "invalid define target"@))),
        }
    }
}

/// `set!`: evaluates the value, then rebinds the name in the frame, from
/// `env` outward, that binds it.
pub open spec fn eval_set(st: SState, args: Seq<SExpr>, env: usize, pos: SourcePos, d: nat) -> Outcome
    decreases d, 15int, 0int,
{
    if args.len() != 2 {
        done(st, Err(syntax_error(pos, "set! expects exactly 2 arguments"@)))
    } else {
        match args[0] {
            SExpr::Symbol(name, name_pos) => {
                let (st1, r) = eval_expr(st, args[1], env, d);
                match r {
                    Ok(v) => {
                        let f = binding_frame(st1.frames, env as int, name);
                        if f < 0 {
                            done(st1, Err(error_at(name_pos, "unbound variable: "@ + name)))
                        } else {
                            done(define(st1, f, name, v), Ok(SValue::Void))
                        }
                    },
                    Err(e) => done(st1, Err(e)),
                }
            },
            other => done(st, Err(syntax_error(sexpr_pos(other), "set! expected a symbol target"@))),
        }
    }
}

pub open spec fn eval_if(st: SState, args: Seq<SExpr>, env: usize, pos: SourcePos, d: nat) -> Outcome
    decreases d, 15int, 0int,
{
    if args.len() != 3 {
        done(st, Err(syntax_error(pos, "if expects exactly 3 arguments"@)))
    } else {
        let (st1, r) = eval_expr(st, args[0], env, d);
        match r {
            Ok(test) => if truthy(test) {
                eval_expr(st1, args[1], env, d)
            } else {
                eval_expr(st1, args[2], env, d)
            },
            Err(e) => done(st1, Err(e)),
        }
    }
}

pub open spec fn eval_let(st: SState, args: Seq<SExpr>, env: usize, pos: SourcePos, d: nat) -> Outcome
    decreases d, 15int, 0int,
{
    if args.len() < 2 {
        done(st, Err(syntax_error(pos, "let expects bindings and a body"@)))
    } else {
        match args[0] {
            SExpr::Symbol(name, _) => if args.len() < 3 {
                done(st, Err(syntax_error(pos, "named let expects bindings and a body"@)))
            } else {
                match args[1] {
                    SExpr::List(bindings, _) => eval_named_let(st, name, bindings, args.skip(2), env, pos, d),
                    other => done(st, Err(syntax_error(sexpr_pos(other), "named let bindings must be a list"@))),
                }
            },
            SExpr::List(bindings, _) => match parse_bindings(bindings, 0, Seq::empty(), Seq::empty()) {
                Ok((names, exprs)) => {
                    let (st1, r) = values_from(st, exprs, 0, Seq::empty(), env, d);
                    match r {
                        Ok(values) => {
                            let (st2, let_env) = new_frame(st1, env);
                            let st3 = define_all(st2, let_env as int, names, values);
                            seq_from(st3, args.skip(1), 0, SValue::Void, let_env, d)
                        },
                        Err(e) => done(st1, Err(e)),
                    }
                },
                Err(e) => done(st, Err(e)),
            },
            other => done(st, Err(syntax_error(sexpr_pos(other), "let bindings must be a list"@))),
        }
    }
}

/// The bindings of `let*` or `letrec` from index `i` on: each value is
/// evaluated in `frame` and bound there before the next; then the body.
pub open spec fn bind_in_turn(
    st: SState,
    names: Seq<Seq<char>>,
    exprs: Seq<SExpr>,
    i: int,
    frame: usize,
    body: Seq<SExpr>,
    d: nat,
) -> Outcome
    decreases d, 8int, exprs.len() - i,
{
    if i < 0 || i >= exprs.len() || i >= names.len() {
        seq_from(st, body, 0, SValue::Void, frame, d)
    } else {
        let (st1, r) = eval_expr(st, exprs[i], frame, d);
        match r {
            Ok(v) => bind_in_turn(define(st1, frame as int, names[i], v), names, exprs, i + 1, frame, body, d),
            Err(e) => done(st1, Err(e)),
        }
    }
}

/// `let*` and, with `rec`, `letrec`: one new frame for all the bindings, in
/// which each value is evaluated in turn; `letrec` first binds every name
/// to `#f`.
pub open spec fn eval_let_star(st: SState, args: Seq<SExpr>, env: usize, pos: SourcePos, d: nat, rec: bool, form: Seq<char>) -> Outcome
    decreases d, 15int, 0int,
{
    if args.len() < 2 {
        done(st, Err(syntax_error(pos, form + " expects bindings and a body"@)))
    } else {
        match args[0] {
            SExpr::List(bindings, _) => match parse_bindings(bindings, 0, Seq::empty(), Seq::empty()) {
                Ok((names, exprs)) => {
                    let (st1, frame) = new_frame(st, env);
                    let st2 = if rec {
                        define_all(st1, frame as int, names, Seq::new(names.len(), |j: int| SValue::Boolean(false)))
                    } else {
                        st1
                    };
                    bind_in_turn(st2, names, exprs, 0, frame, args.skip(1), d)
                },
                Err(e) => done(st, Err(e)),
            },
            other => done(st, Err(syntax_error(sexpr_pos(other), form + " bindings must be a list"@))),
        }
    }
}

pub open spec fn eval_named_let(
    st: SState,
    name: Seq<char>,
    bindings: Seq<SExpr>,
    body: Seq<SExpr>,
    env: usize,
    pos: SourcePos,
    d: nat,
) -> Outcome
    decreases d, 12int, 0int,
{
    match parse_bindings(bindings, 0, Seq::empty(), Seq::empty()) {
        Ok((names, exprs)) => {
            let (st1, r) = values_from(st, exprs, 0, Seq::empty(), env, d);
            match r {
                Ok(values) => {
                    let (st2, named_env) = new_frame(st1, env);
                    let st3 = define(st2, named_env as int, name, SValue::Closure(names, body, named_env));
                    apply_closure_values(st3, names, body, named_env, values, pos, d)
                },
                Err(e) => done(st1, Err(e)),
            }
        },
        Err(e) => done(st, Err(e)),
    }
}

pub open spec fn eval_cond(st: SState, args: Seq<SExpr>, env: usize, pos: SourcePos, d: nat) -> Outcome
    decreases d, 15int, 0int,
{
    if args.len() == 0 {
        done(st, Err(syntax_error(pos, "cond expects at least one clause"@)))
    } else {
        cond_from(st, args, 0, env, d)
    }
}

/// The clauses of a `cond` from index `i` on.
pub open spec fn cond_from(st: SState, args: Seq<SExpr>, i: int, env: usize, d: nat) -> Outcome
    decreases d, 7int, args.len() - i,
{
    if i < 0 || i >= args.len() {
        done(st, Ok(SValue::Void))
    } else {
        match args[i] {
            SExpr::List(clause, clause_pos) => if clause.len() == 0 {
                done(st, Err(syntax_error(clause_pos, "cond clause cannot be empty"@)))
            } else {
                let test = clause[0];
                let body = clause.skip(1);
                if test is Symbol && test->Symbol_0 == "else"@ {
                    if i != args.len() - 1 {
                        done(st, Err(syntax_error(test->Symbol_1, "else clause must be last"@)))
                    } else {
                        seq_from(st, body, 0, SValue::Void, env, d)
                    }
                } else {
                    let (st1, r) = eval_expr(st, test, env, d);
                    match r {
                        Ok(v) => if truthy(v) {
                            if body.len() == 0 {
                                done(st1, Ok(v))
                            } else {
                                seq_from(st1, body, 0, SValue::Void, env, d)
                            }
                        } else {
                            cond_from(st1, args, i + 1, env, d)
                        },
                        Err(e) => done(st1, Err(e)),
                    }
                }
            },
            other => done(st, Err(syntax_error(sexpr_pos(other), "cond clauses must be lists"@))),
        }
    }
}

/// Whether a datum of a `case` clause stands for a value `eqv?` to `key`: a
/// number, boolean, character or symbol equal to it, or the empty list when
/// `key` is the empty list. A quoted string or non-empty list would be a new
/// object, which no key is `eqv?` to.
pub open spec fn datum_matches(key: SValue, datum: SExpr) -> bool {
    match datum {
        SExpr::Integer(n, _) => key == SValue::Integer(n),
        SExpr::Boolean(b, _) => key == SValue::Boolean(b),
        SExpr::Character(c, _) => key == SValue::Character(c),
        SExpr::Symbol(name, _) => key == SValue::Symbol(name),
        SExpr::List(items, _) => items.len() == 0 && (key matches SValue::List(vs) && vs.len() == 0),
        SExpr::String(..) => false,
    }
}

/// Whether any of the data `ds` matches `key`.
pub open spec fn matches_any(key: SValue, ds: Seq<SExpr>) -> bool {
    exists|k: int| 0 <= k < ds.len() && #[trigger] datum_matches(key, ds[k])
}

/// `case`: evaluates the key, then runs the body of the first clause with a
/// datum that matches it, or of the `else` clause.
pub open spec fn eval_case(st: SState, args: Seq<SExpr>, env: usize, pos: SourcePos, d: nat) -> Outcome
    decreases d, 15int, 0int,
{
    if args.len() == 0 {
        done(st, Err(syntax_error(pos, "case requires a key and at least one clause"@)))
    } else if args.len() == 1 {
        done(st, Err(syntax_error(pos, "case requires at least one clause"@)))
    } else {
        let (st1, r) = eval_expr(st, args[0], env, d);
        match r {
            Ok(key) => case_from(st1, args, 1, key, env, d),
            Err(e) => done(st1, Err(e)),
        }
    }
}

/// The clauses of a `case` from index `i` on, for the value `key`.
pub open spec fn case_from(st: SState, args: Seq<SExpr>, i: int, key: SValue, env: usize, d: nat) -> Outcome
    decreases d, 7int, args.len() - i,
{
    if i < 0 || i >= args.len() {
        done(st, Ok(SValue::Void))
    } else {
        match args[i] {
            SExpr::List(clause, _) => if clause.len() == 0 {
                done(st, Err(syntax_error(sexpr_pos(args[i]), "case clause cannot be empty"@)))
            } else {
                let data = clause[0];
                let body = clause.skip(1);
                if data is Symbol && data->Symbol_0 == "else"@ {
                    if i != args.len() - 1 {
                        done(st, Err(syntax_error(data->Symbol_1, "else clause must be last"@)))
                    } else {
                        seq_from(st, body, 0, SValue::Void, env, d)
                    }
                } else {
                    match data {
                        SExpr::List(ds, _) => if matches_any(key, ds) {
                            seq_from(st, body, 0, SValue::Void, env, d)
                        } else {
                            case_from(st, args, i + 1, key, env, d)
                        },
                        _ => done(st, Err(syntax_error(sexpr_pos(data), "case datums must be a list"@))),
                    }
                }
            },
            other => done(st, Err(syntax_error(sexpr_pos(other), "case clauses must be lists"@))),
        }
    }
}

/// The bindings of a `do` from index `i` on: names, initial expressions and
/// step expressions. A binding without a step steps to its own variable.
pub open spec fn parse_do_bindings(
    es: Seq<SExpr>,
    i: int,
    names: Seq<Seq<char>>,
    inits: Seq<SExpr>,
    steps: Seq<SExpr>,
) -> Result<(Seq<Seq<char>>, Seq<SExpr>, Seq<SExpr>), ErrorView>
    decreases es.len() - i,
{
    if i < 0 || i >= es.len() {
        Ok((names, inits, steps))
    } else {
        match es[i] {
            SExpr::List(binding, binding_pos) => if binding.len() != 2 && binding.len() != 3 {
                Err(syntax_error(binding_pos, "each do binding must contain a name, init, and optional step"@))
            } else {
                match binding[0] {
                    SExpr::Symbol(name, name_pos) => parse_do_bindings(
                        es,
                        i + 1,
                        names.push(name),
                        inits.push(binding[1]),
                        steps.push(if binding.len() == 3 { binding[2] } else { SExpr::Symbol(name, name_pos) }),
                    ),
                    other => Err(syntax_error(sexpr_pos(other), "do binding name must be a symbol"@)),
                }
            },
            other => Err(syntax_error(sexpr_pos(other), "do bindings must be lists"@)),
        }
    }
}

/// `do`: checks the form, binds the variables to their initial values in a
/// new frame, and runs the loop.
pub open spec fn eval_do(st: SState, args: Seq<SExpr>, env: usize, pos: SourcePos, d: nat) -> Outcome
    decreases d, 15int, 0int,
{
    if args.len() == 0 {
        done(st, Err(syntax_error(pos, "do requires bindings and a test clause"@)))
    } else if args.len() == 1 {
        done(st, Err(syntax_error(pos, "do requires a test clause"@)))
    } else {
        match args[0] {
            SExpr::List(bindings, _) => match args[1] {
                SExpr::List(test_clause, test_pos) => if test_clause.len() == 0 {
                    done(st, Err(syntax_error(test_pos, "do test clause cannot be empty"@)))
                } else {
                    match parse_do_bindings(bindings, 0, Seq::empty(), Seq::empty(), Seq::empty()) {
                        Ok((names, inits, steps)) => {
                            let (st1, r) = values_from(st, inits, 0, Seq::empty(), env, d);
                            match r {
                                Ok(values) => {
                                    let (st2, frame) = new_frame(st1, env);
                                    let st3 = define_all(st2, frame as int, names, values);
                                    do_loop(st3, frame, names, steps, test_clause[0], test_clause.skip(1), args.skip(2), d)
                                },
                                Err(e) => done(st1, Err(e)),
                            }
                        },
                        Err(e) => done(st, Err(e)),
                    }
                },
                other => done(st, Err(syntax_error(sexpr_pos(other), "do test clause must be a list"@))),
            },
            other => done(st, Err(syntax_error(sexpr_pos(other), "do bindings must be a list"@))),
        }
    }
}

/// The loop of a `do` in `frame`: when `test` holds, the value of the exit
/// expressions; otherwise the body, then every step, then the variables
/// rebound to the steps' values, and again. Each round uses one unit of the
/// budget.
pub open spec fn do_loop(
    st: SState,
    frame: usize,
    names: Seq<Seq<char>>,
    steps: Seq<SExpr>,
    test: SExpr,
    exits: Seq<SExpr>,
    body: Seq<SExpr>,
    d: nat,
) -> Outcome
    decreases d, 8int, 0int,
{
    if d == 0 {
        done(st, Err(step_limit(st)))
    } else {
        let (st1, r) = eval_expr(st, test, frame, d);
        match r {
            Ok(t) => if truthy(t) {
                seq_from(st1, exits, 0, SValue::Void, frame, d)
            } else {
                let (st2, rb) = seq_from(st1, body, 0, SValue::Void, frame, d);
                match rb {
                    Ok(_) => {
                        let (st3, rs) = values_from(st2, steps, 0, Seq::empty(), frame, d);
                        match rs {
                            Ok(values) => do_loop(
                                define_all(st3, frame as int, names, values),
                                frame,
                                names,
                                steps,
                                test,
                                exits,
                                body,
                                (d - 1) as nat,
                            ),
                            Err(e) => done(st3, Err(e)),
                        }
                    },
                    Err(e) => done(st2, Err(e)),
                }
            },
            Err(e) => done(st1, Err(e)),
        }
    }
}

/// `and`: the first false value, or the last value, or `#t` for none.
pub open spec fn and_from(st: SState, args: Seq<SExpr>, i: int, result: SValue, env: usize, d: nat) -> Outcome
    decreases d, 6int, args.len() - i,
{
    if i < 0 || i >= args.len() {
        done(st, Ok(result))
    } else {
        let (st1, r) = eval_expr(st, args[i], env, d);
        match r {
            Ok(v) => if !truthy(v) {
                done(st1, Ok(v))
            } else {
                and_from(st1, args, i + 1, v, env, d)
            },
            Err(e) => done(st1, Err(e)),
        }
    }
}

/// `or`: the first true value, or the last value, or `#f` for none.
pub open spec fn or_from(st: SState, args: Seq<SExpr>, i: int, result: SValue, env: usize, d: nat) -> Outcome
    decreases d, 6int, args.len() - i,
{
    if i < 0 || i >= args.len() {
        done(st, Ok(result))
    } else {
        let (st1, r) = eval_expr(st, args[i], env, d);
        match r {
            Ok(v) => if truthy(v) {
                done(st1, Ok(v))
            } else {
                or_from(st1, args, i + 1, v, env, d)
            },
            Err(e) => done(st1, Err(e)),
        }
    }
}

/// Evaluates the expressions from index `i` on, in order; the value of the
/// last one, or `last` when there are none left.
pub open spec fn seq_from(st: SState, es: Seq<SExpr>, i: int, last: SValue, env: usize, d: nat) -> Outcome
    decreases d, 5int, es.len() - i,
{
    if i < 0 || i >= es.len() {
        done(st, Ok(last))
    } else {
        let (st1, r) = eval_expr(st, es[i], env, d);
        match r {
            Ok(v) => seq_from(st1, es, i + 1, v, env, d),
            Err(e) => done(st1, Err(e)),
        }
    }
}

/// The values of the expressions from index `i` on, in order.
pub open spec fn values_from(st: SState, es: Seq<SExpr>, i: int, acc: Seq<SValue>, env: usize, d: nat) -> ValuesOutcome
    decreases d, 5int, es.len() - i,
{
    if i < 0 || i >= es.len() {
        (st, Ok(acc))
    } else {
        let (st1, r) = eval_expr(st, es[i], env, d);
        match r {
            Ok(v) => values_from(st1, es, i + 1, acc.push(v), env, d),
            Err(e) => (st1, Err(e)),
        }
    }
}

/// The values of the expressions from index `i` on, each with the position of
/// its expression.
pub open spec fn args_from(st: SState, es: Seq<SExpr>, i: int, acc: Seq<SArg>, env: usize, d: nat) -> ArgsOutcome
    decreases d, 5int, es.len() - i,
{
    if i < 0 || i >= es.len() {
        (st, Ok(acc))
    } else {
        let (st1, r) = eval_expr(st, es[i], env, d);
        match r {
            Ok(v) => args_from(st1, es, i + 1, acc.push(SArg { value: v, pos: sexpr_pos(es[i]) }), env, d),
            Err(e) => (st1, Err(e)),
        }
    }
}

/// Applies an evaluated operator to the argument expressions.
pub open spec fn apply(st: SState, f: SValue, pos: SourcePos, args: Seq<SExpr>, env: usize, d: nat) -> Outcome
    decreases d, 14int, 0int,
{
    match f {
        SValue::Builtin(b) => apply_builtin(st, b, args, env, pos, d),
        SValue::Closure(params, body, closure_env) => apply_closure_exprs(
            st,
            params,
            body,
            closure_env,
            args,
            env,
            pos,
            d,
        ),
        _ => done(st, Err(error_at(pos, "attempted to call non-procedure"@))),
    }
}

pub open spec fn apply_builtin(st: SState, b: super::value::Builtin, args: Seq<SExpr>, env: usize, pos: SourcePos, d: nat) -> Outcome
    decreases d, 13int, 0int,
{
    let (st1, r) = args_from(st, args, 0, Seq::empty(), env, d);
    match r {
        Ok(evaluated) => if is_higher_order(b) {
            higher_order(st1, b, evaluated, pos, d)
        } else {
            builtin_call(st1, b, evaluated, pos)
        },
        Err(e) => done(st1, Err(e)),
    }
}

/// The primitives that call procedures: `apply`, `map` and `for-each`.
pub open spec fn is_higher_order(b: super::value::Builtin) -> bool {
    b == super::value::Builtin::Apply || b == super::value::Builtin::MapEach || b == super::value::Builtin::ForEach
}

/// Values handed to a procedure as arguments, each at `pos`.
pub open spec fn args_at(values: Seq<SValue>, pos: SourcePos) -> Seq<SArg> {
    Seq::new(values.len(), |i: int| SArg { value: values[i], pos: pos })
}

/// Applies a procedure to argument values that are already evaluated, using
/// one unit of the budget for a closure or a primitive that calls procedures.
pub open spec fn apply_values(st: SState, f: SValue, values: Seq<SValue>, pos: SourcePos, d: nat) -> Outcome
    decreases d, 3int, 0int,
{
    if d == 0 {
        done(st, Err(step_limit(st)))
    } else {
        match f {
            SValue::Builtin(b) => if is_higher_order(b) {
                higher_order(st, b, args_at(values, pos), pos, (d - 1) as nat)
            } else {
                builtin_call(st, b, args_at(values, pos), pos)
            },
            SValue::Closure(params, body, closure_env) => apply_closure_values(
                st,
                params,
                body,
                closure_env,
                values,
                pos,
                (d - 1) as nat,
            ),
            _ => done(st, Err(error_at(pos, "attempted to call non-procedure"@))),
        }
    }
}

/// The lists among the arguments from index `i` on, after `acc`; each must
/// be a list as long as the first.
pub open spec fn lists_of(args: Seq<SArg>, i: int, acc: Seq<Seq<SValue>>, name: Seq<char>) -> Result<Seq<Seq<SValue>>, ErrorView>
    decreases args.len() - i,
{
    if i < 0 || i >= args.len() {
        Ok(acc)
    } else {
        match args[i].value {
            SValue::List(items) => if acc.len() > 0 && items.len() != acc[0].len() {
                Err(super::error::type_error(args[i].pos, name + " expects lists of the same length"@))
            } else {
                lists_of(args, i + 1, acc.push(items), name)
            },
            _ => Err(super::error::type_error(args[i].pos, name + " expects list arguments"@)),
        }
    }
}

/// The `i`-th element of each list.
pub open spec fn column(lists: Seq<Seq<SValue>>, i: int) -> Seq<SValue> {
    Seq::new(lists.len(), |k: int| lists[k][i])
}

/// `map` (with `collect`) and `for-each`: applies `f` to the elements at
/// each place from `i` on, in order; `map` gives the list of the results
/// after `acc`, `for-each` gives `#f`.
pub open spec fn map_from(
    st: SState,
    f: SValue,
    lists: Seq<Seq<SValue>>,
    i: int,
    acc: Seq<SValue>,
    collect: bool,
    pos: SourcePos,
    d: nat,
) -> Outcome
    decreases d, 4int, (if lists.len() == 0 { 0 } else { lists[0].len() }) - i,
{
    if lists.len() == 0 || i < 0 || i >= lists[0].len() {
        done(st, Ok(if collect { SValue::List(acc) } else { SValue::Boolean(false) }))
    } else {
        let (st1, r) = apply_values(st, f, column(lists, i), pos, d);
        match r {
            Ok(v) => map_from(st1, f, lists, i + 1, acc.push(v), collect, pos, d),
            Err(e) => done(st1, Err(e)),
        }
    }
}

/// `apply`, `map` and `for-each` on evaluated arguments.
pub open spec fn higher_order(st: SState, b: super::value::Builtin, args: Seq<SArg>, pos: SourcePos, d: nat) -> Outcome
    decreases d, 6int, 0int,
{
    let name = if b == super::value::Builtin::Apply {
        "apply"@
    } else if b == super::value::Builtin::MapEach {
        "map"@
    } else {
        "for-each"@
    };
    if args.len() < 2 {
        done(st, Err(arity_error(pos, name, "expected at least 2 arguments"@)))
    } else if b == super::value::Builtin::Apply {
        match args[args.len() - 1].value {
            SValue::List(tail) => apply_values(
                st,
                args[0].value,
                Seq::new((args.len() - 2) as nat, |i: int| args[i + 1].value) + tail,
                pos,
                d,
            ),
            _ => done(st, Err(super::error::type_error(args[args.len() - 1].pos, "apply"@ + " expects a list as its last argument"@))),
        }
    } else {
        match lists_of(args, 1, Seq::empty(), name) {
            Ok(lists) => map_from(st, args[0].value, lists, 0, Seq::empty(), b == super::value::Builtin::MapEach, pos, d),
            Err(e) => done(st, Err(e)),
        }
    }
}

/// The primitive procedure called `op` applied to evaluated arguments, or an
/// unbound-variable error when no primitive has that name. `apply`, `map`
/// and `for-each` may nest as deep as the state's limit allows.
pub open spec fn primitive_call(st: SState, op: Seq<char>, args: Seq<SArg>, pos: SourcePos) -> Outcome {
    let b = super::value::builtin_named(op);
    if super::value::builtin_name(b) != op {
        done(st, Err(error_at(pos, "unbound variable: "@ + op)))
    } else if is_higher_order(b) {
        higher_order(st, b, args, pos, st.limit as nat)
    } else {
        builtin_call(st, b, args, pos)
    }
}

pub open spec fn apply_closure_exprs(
    st: SState,
    params: Seq<Seq<char>>,
    body: Seq<SExpr>,
    closure_env: usize,
    args: Seq<SExpr>,
    env: usize,
    pos: SourcePos,
    d: nat,
) -> Outcome
    decreases d, 13int, 0int,
{
    let (st1, r) = values_from(st, args, 0, Seq::empty(), env, d);
    match r {
        Ok(values) => apply_closure_values(st1, params, body, closure_env, values, pos, d),
        Err(e) => done(st1, Err(e)),
    }
}

/// Binds the parameters to the values in a new frame that extends the
/// closure's frame, and evaluates the body there.
pub open spec fn apply_closure_values(
    st: SState,
    params: Seq<Seq<char>>,
    body: Seq<SExpr>,
    closure_env: usize,
    values: Seq<SValue>,
    pos: SourcePos,
    d: nat,
) -> Outcome
    decreases d, 11int, 0int,
{
    if takes_rest(params) {
        if values.len() < params.len() - 2 {
            done(st, Err(arity_error(pos, "lambda"@, "expected at least "@ + nat_text((params.len() - 2) as nat) + " arguments"@)))
        } else {
            let (st1, call_env) = new_frame(st, closure_env);
            let st2 = define_all(st1, call_env as int, bound_names(params), bound_values(params, values));
            seq_from(st2, body, 0, SValue::Void, call_env, d)
        }
    } else if values.len() != params.len() {
        done(st, Err(arity_error(pos, "lambda"@, "expected "@ + nat_text(params.len()) + " arguments"@)))
    } else {
        let (st1, call_env) = new_frame(st, closure_env);
        let st2 = define_all(st1, call_env as int, params, values);
        seq_from(st2, body, 0, SValue::Void, call_env, d)
    }
}

/// Evaluates a program's expressions in the global frame; the value of the last.
pub open spec fn eval_program(st: SState, program: Seq<SExpr>, d: nat) -> Outcome {
    if program.len() == 0 {
        done(st, Err(syntax_error(SourcePos { line: 1, column: 1 }, "empty program"@)))
    } else {
        seq_from(st, program, 0, SValue::Void, 0, d)
    }
}

/// `map` gives a list as long as the lists it was handed: when it succeeds,
/// one result stands for each place from `i` on, after those in `acc`.
pub proof fn law_map_keeps_length(
    st: SState,
    f: SValue,
    lists: Seq<Seq<SValue>>,
    i: int,
    acc: Seq<SValue>,
    pos: SourcePos,
    d: nat,
)
    requires
        lists.len() > 0,
        0 <= i <= lists[0].len(),
    ensures
        map_from(st, f, lists, i, acc, true, pos, d).1 matches Ok(SValue::List(vs)) ==> vs.len() == acc.len() + lists[0].len() - i,
    decreases lists[0].len() - i,
{
    if i < lists[0].len() {
        let (st1, r) = apply_values(st, f, column(lists, i), pos, d);
        if let Ok(v) = r {
            law_map_keeps_length(st1, f, lists, i + 1, acc.push(v), pos, d);
        }
    }
}

/// `for-each`, when it succeeds, gives `#f` whatever the procedure returned.
pub proof fn law_for_each_gives_false(
    st: SState,
    f: SValue,
    lists: Seq<Seq<SValue>>,
    i: int,
    acc: Seq<SValue>,
    pos: SourcePos,
    d: nat,
)
    requires
        lists.len() > 0,
        0 <= i <= lists[0].len(),
    ensures
        map_from(st, f, lists, i, acc, false, pos, d).1 matches Ok(v) ==> v == SValue::Boolean(false),
    decreases lists[0].len() - i,
{
    if i < lists[0].len() {
        let (st1, r) = apply_values(st, f, column(lists, i), pos, d);
        if let Ok(v) = r {
            law_for_each_gives_false(st1, f, lists, i + 1, acc.push(v), pos, d);
        }
    }
}

} // verus!
