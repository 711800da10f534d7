//! How the evaluation budget bears on results: an evaluation that finished
//! within some budget finishes the same way with any larger one, whatever
//! limit the state records for the step-limit error.
use vstd::prelude::*;

use super::builtins::{builtin_call, SArg};
use super::env::{define_all, SState};
use super::error::ErrorView;
use super::expr::SExpr;
use super::position::SourcePos;
use super::semantics::{
    and_from, apply, apply_builtin, bind_in_turn, eval_let_star, apply_closure_exprs, apply_closure_values, args_from, case_from, cond_from,
    eval_cond, eval_define, eval_expr, eval_if, eval_let, eval_list, eval_named_let, eval_quote,
    or_from, quote_datum, quote_from, seq_from, values_from,
};
use super::interpreter::initial_state;
use super::value::{all_builtins, builtin_name, Builtin, SValue};

verus! {

/// The state with another limit recorded for the step-limit error.
pub open spec fn relimit(st: SState, l: usize) -> SState {
    SState { limit: l, ..st }
}

/// A result other than the step-limit error.
pub open spec fn within_budget<T>(r: Result<T, ErrorView>) -> bool {
    !(r matches Err(ErrorView::StepLimitExceeded(_)))
}

/// `a` is `b` run on a state with limit `l`.
pub open spec fn same_run<T>(a: (SState, Result<T, ErrorView>), b: (SState, Result<T, ErrorView>), l: usize) -> bool {
    a == (relimit(b.0, l), b.1)
}

proof fn lemma_define_all_relimit(st: SState, env: int, names: Seq<Seq<char>>, values: Seq<SValue>, l: usize)
    ensures
        define_all(relimit(st, l), env, names, values) == relimit(define_all(st, env, names, values), l),
    decreases names.len(),
{
    if names.len() > 0 && values.len() > 0 {
        lemma_define_all_relimit(st, env, names.drop_last(), values.drop_last(), l);
    }
}

proof fn lemma_quote_datum_relimit(st: SState, e: SExpr, l: usize)
    ensures
        quote_datum(relimit(st, l), e) == (relimit(quote_datum(st, e).0, l), quote_datum(st, e).1),
    decreases e, 0int,
{
    match e {
        SExpr::List(items, _) => lemma_quote_from_relimit(st, items, 0, Seq::empty(), l),
        _ => {},
    }
}

proof fn lemma_quote_from_relimit(st: SState, items: Seq<SExpr>, i: int, acc: Seq<SValue>, l: usize)
    ensures
        quote_from(relimit(st, l), items, i, acc) == (relimit(quote_from(st, items, i, acc).0, l), quote_from(
            st,
            items,
            i,
            acc,
        ).1),
    decreases items, items.len() - i,
{
    if 0 <= i < items.len() {
        lemma_quote_datum_relimit(st, items[i], l);
        let (st2, v) = quote_datum(st, items[i]);
        lemma_quote_from_relimit(st2, items, i + 1, acc.push(v), l);
    }
}

proof fn lemma_builtin_call_relimit(st: SState, b: Builtin, args: Seq<SArg>, pos: SourcePos, l: usize)
    ensures
        same_run(builtin_call(relimit(st, l), b, args, pos), builtin_call(st, b, args, pos), l),
{
}

proof fn lemma_eval_expr(st: SState, e: SExpr, env: usize, d: nat, d2: nat, l: usize)
    requires
        d <= d2,
        within_budget(eval_expr(st, e, env, d).1),
    ensures
        same_run(eval_expr(relimit(st, l), e, env, d2), eval_expr(st, e, env, d), l),
    decreases d, 0int, 0int,
{
    if d > 0 {
        match e {
            SExpr::List(items, pos) => lemma_eval_list(st, items, pos, env, (d - 1) as nat, (d2 - 1) as nat, l),
            _ => {},
        }
    }
}

proof fn lemma_eval_list(st: SState, items: Seq<SExpr>, pos: SourcePos, env: usize, d: nat, d2: nat, l: usize)
    requires
        d <= d2,
        within_budget(eval_list(st, items, pos, env, d).1),
    ensures
        same_run(eval_list(relimit(st, l), items, pos, env, d2), eval_list(st, items, pos, env, d), l),
    decreases d, 20int, 0int,
{
    if items.len() > 0 {
        let op = items[0];
        let args = items.skip(1);
        let special = op matches SExpr::Symbol(name, _) && (name == "define"@ || name == "set!"@ || name == "if"@
            || name == "quote"@ || name == "lambda"@ || name == "begin"@ || name == "let"@ || name == "let*"@
            || name == "letrec"@ || name == "letrec*"@
            || name == "cond"@ || name == "case"@ || name == "do"@ || name == "and"@ || name == "or"@);
        if special {
            let name = op->Symbol_0;
            let op_pos = op->Symbol_1;
            if name == "define"@ {
                lemma_eval_define(st, args, env, op_pos, d, d2, l);
            } else if name == "set!"@ {
                if args.len() == 2 && args[0] is Symbol {
                    lemma_eval_expr(st, args[1], env, d, d2, l);
                }
            } else if name == "if"@ {
                lemma_eval_if(st, args, env, op_pos, d, d2, l);
            } else if name == "quote"@ {
                if args.len() == 1 {
                    lemma_quote_datum_relimit(st, args[0], l);
                }
            } else if name == "lambda"@ {
            } else if name == "begin"@ {
                lemma_seq_from(st, args, 0, SValue::Void, env, d, d2, l);
            } else if name == "let"@ {
                lemma_eval_let(st, args, env, op_pos, d, d2, l);
            } else if name == "let*"@ {
                lemma_eval_let_star(st, args, env, op_pos, d, d2, l, false, "let*"@);
            } else if name == "letrec"@ {
                lemma_eval_let_star(st, args, env, op_pos, d, d2, l, true, "letrec"@);
            } else if name == "letrec*"@ {
                lemma_eval_let_star(st, args, env, op_pos, d, d2, l, true, "letrec*"@);
            } else if name == "cond"@ {
                if args.len() > 0 {
                    lemma_cond_from(st, args, 0, env, d, d2, l);
                }
            } else if name == "case"@ {
                if args.len() >= 2 {
                    let (st1, r) = eval_expr(st, args[0], env, d);
                    lemma_eval_expr(st, args[0], env, d, d2, l);
                    match r {
                        Ok(key) => lemma_case_from(st1, args, 1, key, env, d, d2, l),
                        Err(_) => {},
                    }
                }
            } else if name == "do"@ {
                lemma_eval_do(st, args, env, op_pos, d, d2, l);
            } else if name == "and"@ {
                lemma_and_from(st, args, 0, SValue::Boolean(true), env, d, d2, l);
            } else {
                lemma_or_from(st, args, 0, SValue::Boolean(false), env, d, d2, l);
            }
        } else {
            let (st1, r) = eval_expr(st, op, env, d);
            lemma_eval_expr(st, op, env, d, d2, l);
            match r {
                Ok(f) => {
                    let p = match op {
                        SExpr::Symbol(_, op_pos) => op_pos,
                        _ => super::expr::sexpr_pos(op),
                    };
                    lemma_apply(st1, f, p, args, env, d, d2, l);
                },
                Err(_) => {},
            }
        }
    }
}

proof fn lemma_eval_define(st: SState, args: Seq<SExpr>, env: usize, pos: SourcePos, d: nat, d2: nat, l: usize)
    requires
        d <= d2,
        within_budget(eval_define(st, args, env, pos, d).1),
    ensures
        same_run(eval_define(relimit(st, l), args, env, pos, d2), eval_define(st, args, env, pos, d), l),
    decreases d, 15int, 0int,
{
    if args.len() == 2 && args[0] is Symbol {
        lemma_eval_expr(st, args[1], env, d, d2, l);
    }
}

proof fn lemma_eval_if(st: SState, args: Seq<SExpr>, env: usize, pos: SourcePos, d: nat, d2: nat, l: usize)
    requires
        d <= d2,
        within_budget(eval_if(st, args, env, pos, d).1),
    ensures
        same_run(eval_if(relimit(st, l), args, env, pos, d2), eval_if(st, args, env, pos, d), l),
    decreases d, 15int, 0int,
{
    if args.len() == 3 {
        let (st1, r) = eval_expr(st, args[0], env, d);
        lemma_eval_expr(st, args[0], env, d, d2, l);
        match r {
            Ok(test) => {
                if super::value::truthy(test) {
                    lemma_eval_expr(st1, args[1], env, d, d2, l);
                } else {
                    lemma_eval_expr(st1, args[2], env, d, d2, l);
                }
            },
            Err(_) => {},
        }
    }
}

proof fn lemma_eval_let(st: SState, args: Seq<SExpr>, env: usize, pos: SourcePos, d: nat, d2: nat, l: usize)
    requires
        d <= d2,
        within_budget(eval_let(st, args, env, pos, d).1),
    ensures
        same_run(eval_let(relimit(st, l), args, env, pos, d2), eval_let(st, args, env, pos, d), l),
    decreases d, 15int, 0int,
{
    if args.len() >= 2 {
        match args[0] {
            SExpr::Symbol(name, _) => {
                if args.len() >= 3 {
                    match args[1] {
                        SExpr::List(bindings, _) => lemma_eval_named_let(
                            st,
                            name,
                            bindings,
                            args.skip(2),
                            env,
                            pos,
                            d,
                            d2,
                            l,
                        ),
                        _ => {},
                    }
                }
            },
            SExpr::List(bindings, _) => match super::semantics::parse_bindings(
                bindings,
                0,
                Seq::empty(),
                Seq::empty(),
            ) {
                Ok((names, exprs)) => {
                    let (st1, r) = values_from(st, exprs, 0, Seq::empty(), env, d);
                    lemma_values_from(st, exprs, 0, Seq::empty(), env, d, d2, l);
                    match r {
                        Ok(values) => {
                            let (st2, let_env) = super::env::new_frame(st1, env);
                            let st3 = define_all(st2, let_env as int, names, values);
                            lemma_define_all_relimit(st2, let_env as int, names, values, l);
                            assert(super::env::new_frame(relimit(st1, l), env) == (relimit(st2, l), let_env));
                            lemma_seq_from(st3, args.skip(1), 0, SValue::Void, let_env, d, d2, l);
                        },
                        Err(_) => {},
                    }
                },
                Err(_) => {},
            },
            _ => {},
        }
    }
}

proof fn lemma_eval_let_star(st: SState, args: Seq<SExpr>, env: usize, pos: SourcePos, d: nat, d2: nat, l: usize, rec: bool, form: Seq<char>)
    requires
        d <= d2,
        within_budget(eval_let_star(st, args, env, pos, d, rec, form).1),
    ensures
        same_run(eval_let_star(relimit(st, l), args, env, pos, d2, rec, form), eval_let_star(st, args, env, pos, d, rec, form), l),
    decreases d, 15int, 0int,
{
    if args.len() >= 2 {
        match args[0] {
            SExpr::List(bindings, _) => match super::semantics::parse_bindings(bindings, 0, Seq::empty(), Seq::empty()) {
                Ok((names, exprs)) => {
                    let (st1, frame) = super::env::new_frame(st, env);
                    assert(super::env::new_frame(relimit(st, l), env) == (relimit(st1, l), frame));
                    let falses = Seq::new(names.len(), |j: int| SValue::Boolean(false));
                    lemma_define_all_relimit(st1, frame as int, names, falses, l);
                    let st2 = if rec { define_all(st1, frame as int, names, falses) } else { st1 };
                    lemma_bind_in_turn(st2, names, exprs, 0, frame, args.skip(1), d, d2, l);
                },
                Err(_) => {},
            },
            _ => {},
        }
    }
}

proof fn lemma_bind_in_turn(
    st: SState,
    names: Seq<Seq<char>>,
    exprs: Seq<SExpr>,
    i: int,
    frame: usize,
    body: Seq<SExpr>,
    d: nat,
    d2: nat,
    l: usize,
)
    requires
        d <= d2,
        within_budget(bind_in_turn(st, names, exprs, i, frame, body, d).1),
    ensures
        same_run(bind_in_turn(relimit(st, l), names, exprs, i, frame, body, d2), bind_in_turn(st, names, exprs, i, frame, body, d), l),
    decreases d, 8int, exprs.len() - i,
{
    if i < 0 || i >= exprs.len() || i >= names.len() {
        lemma_seq_from(st, body, 0, SValue::Void, frame, d, d2, l);
    } else {
        let (st1, r) = eval_expr(st, exprs[i], frame, d);
        lemma_eval_expr(st, exprs[i], frame, d, d2, l);
        match r {
            Ok(v) => lemma_bind_in_turn(super::env::define(st1, frame as int, names[i], v), names, exprs, i + 1, frame, body, d, d2, l),
            Err(_) => {},
        }
    }
}

proof fn lemma_eval_named_let(
    st: SState,
    name: Seq<char>,
    bindings: Seq<SExpr>,
    body: Seq<SExpr>,
    env: usize,
    pos: SourcePos,
    d: nat,
    d2: nat,
    l: usize,
)
    requires
        d <= d2,
        within_budget(eval_named_let(st, name, bindings, body, env, pos, d).1),
    ensures
        same_run(
            eval_named_let(relimit(st, l), name, bindings, body, env, pos, d2),
            eval_named_let(st, name, bindings, body, env, pos, d),
            l,
        ),
    decreases d, 12int, 0int,
{
    match super::semantics::parse_bindings(bindings, 0, Seq::empty(), Seq::empty()) {
        Ok((names, exprs)) => {
            let (st1, r) = values_from(st, exprs, 0, Seq::empty(), env, d);
            lemma_values_from(st, exprs, 0, Seq::empty(), env, d, d2, l);
            match r {
                Ok(values) => {
                    let (st2, named_env) = super::env::new_frame(st1, env);
                    let st3 = super::env::define(
                        st2,
                        named_env as int,
                        name,
                        SValue::Closure(names, body, named_env),
                    );
                    assert(super::env::new_frame(relimit(st1, l), env) == (relimit(st2, l), named_env));
                    lemma_apply_closure_values(st3, names, body, named_env, values, pos, d, d2, l);
                },
                Err(_) => {},
            }
        },
        Err(_) => {},
    }
}

proof fn lemma_cond_from(st: SState, args: Seq<SExpr>, i: int, env: usize, d: nat, d2: nat, l: usize)
    requires
        d <= d2,
        within_budget(cond_from(st, args, i, env, d).1),
    ensures
        same_run(cond_from(relimit(st, l), args, i, env, d2), cond_from(st, args, i, env, d), l),
    decreases d, 7int, args.len() - i,
{
    if 0 <= i < args.len() {
        match args[i] {
            SExpr::List(clause, _) => if clause.len() > 0 {
                let test = clause[0];
                let body = clause.skip(1);
                if test is Symbol && test->Symbol_0 == "else"@ {
                    if i == args.len() - 1 {
                        lemma_seq_from(st, body, 0, SValue::Void, env, d, d2, l);
                    }
                } else {
                    let (st1, r) = eval_expr(st, test, env, d);
                    lemma_eval_expr(st, test, env, d, d2, l);
                    match r {
                        Ok(v) => if super::value::truthy(v) {
                            if body.len() > 0 {
                                lemma_seq_from(st1, body, 0, SValue::Void, env, d, d2, l);
                            }
                        } else {
                            lemma_cond_from(st1, args, i + 1, env, d, d2, l);
                        },
                        Err(_) => {},
                    }
                }
            },
            _ => {},
        }
    }
}

proof fn lemma_case_from(st: SState, args: Seq<SExpr>, i: int, key: SValue, env: usize, d: nat, d2: nat, l: usize)
    requires
        d <= d2,
        within_budget(case_from(st, args, i, key, env, d).1),
    ensures
        same_run(case_from(relimit(st, l), args, i, key, env, d2), case_from(st, args, i, key, env, d), l),
    decreases d, 7int, args.len() - i,
{
    if 0 <= i < args.len() {
        match args[i] {
            SExpr::List(clause, _) => if clause.len() > 0 {
                let data = clause[0];
                let body = clause.skip(1);
                if data is Symbol && data->Symbol_0 == "else"@ {
                    if i == args.len() - 1 {
                        lemma_seq_from(st, body, 0, SValue::Void, env, d, d2, l);
                    }
                } else {
                    match data {
                        SExpr::List(ds, _) => {
                            if super::semantics::matches_any(key, ds) {
                                lemma_seq_from(st, body, 0, SValue::Void, env, d, d2, l);
                            } else {
                                lemma_case_from(st, args, i + 1, key, env, d, d2, l);
                            }
                        },
                        _ => {},
                    }
                }
            },
            _ => {},
        }
    }
}

proof fn lemma_eval_do(st: SState, args: Seq<SExpr>, env: usize, pos: SourcePos, d: nat, d2: nat, l: usize)
    requires
        d <= d2,
        within_budget(super::semantics::eval_do(st, args, env, pos, d).1),
    ensures
        same_run(super::semantics::eval_do(relimit(st, l), args, env, pos, d2), super::semantics::eval_do(st, args, env, pos, d), l),
    decreases d, 15int, 0int,
{
    if args.len() >= 2 {
        match args[0] {
            SExpr::List(bindings, _) => match args[1] {
                SExpr::List(test_clause, _) => if test_clause.len() > 0 {
                    match super::semantics::parse_do_bindings(bindings, 0, Seq::empty(), Seq::empty(), Seq::empty()) {
                        Ok((names, inits, steps)) => {
                            let (st1, r) = values_from(st, inits, 0, Seq::empty(), env, d);
                            lemma_values_from(st, inits, 0, Seq::empty(), env, d, d2, l);
                            match r {
                                Ok(values) => {
                                    let (st2, frame) = super::env::new_frame(st1, env);
                                    let st3 = define_all(st2, frame as int, names, values);
                                    lemma_define_all_relimit(st2, frame as int, names, values, l);
                                    assert(super::env::new_frame(relimit(st1, l), env) == (relimit(st2, l), frame));
                                    lemma_do_loop(st3, frame, names, steps, test_clause[0], test_clause.skip(1), args.skip(2), d, d2, l);
                                },
                                Err(_) => {},
                            }
                        },
                        Err(_) => {},
                    }
                },
                _ => {},
            },
            _ => {},
        }
    }
}

proof fn lemma_do_loop(
    st: SState,
    frame: usize,
    names: Seq<Seq<char>>,
    steps: Seq<SExpr>,
    test: SExpr,
    exits: Seq<SExpr>,
    body: Seq<SExpr>,
    d: nat,
    d2: nat,
    l: usize,
)
    requires
        d <= d2,
        within_budget(super::semantics::do_loop(st, frame, names, steps, test, exits, body, d).1),
    ensures
        same_run(
            super::semantics::do_loop(relimit(st, l), frame, names, steps, test, exits, body, d2),
            super::semantics::do_loop(st, frame, names, steps, test, exits, body, d),
            l,
        ),
    decreases d, 8int, 0int,
{
    if d > 0 {
        let (st1, r) = eval_expr(st, test, frame, d);
        lemma_eval_expr(st, test, frame, d, d2, l);
        match r {
            Ok(t) => if super::value::truthy(t) {
                lemma_seq_from(st1, exits, 0, SValue::Void, frame, d, d2, l);
            } else {
                let (st2, rb) = super::semantics::seq_from(st1, body, 0, SValue::Void, frame, d);
                lemma_seq_from(st1, body, 0, SValue::Void, frame, d, d2, l);
                match rb {
                    Ok(_) => {
                        let (st3, rs) = values_from(st2, steps, 0, Seq::empty(), frame, d);
                        lemma_values_from(st2, steps, 0, Seq::empty(), frame, d, d2, l);
                        match rs {
                            Ok(values) => {
                                lemma_define_all_relimit(st3, frame as int, names, values, l);
                                lemma_do_loop(
                                    define_all(st3, frame as int, names, values),
                                    frame,
                                    names,
                                    steps,
                                    test,
                                    exits,
                                    body,
                                    (d - 1) as nat,
                                    (d2 - 1) as nat,
                                    l,
                                );
                            },
                            Err(_) => {},
                        }
                    },
                    Err(_) => {},
                }
            },
            Err(_) => {},
        }
    }
}

proof fn lemma_and_from(st: SState, args: Seq<SExpr>, i: int, result: SValue, env: usize, d: nat, d2: nat, l: usize)
    requires
        d <= d2,
        within_budget(and_from(st, args, i, result, env, d).1),
    ensures
        same_run(and_from(relimit(st, l), args, i, result, env, d2), and_from(st, args, i, result, env, d), l),
    decreases d, 6int, args.len() - i,
{
    if 0 <= i < args.len() {
        let (st1, r) = eval_expr(st, args[i], env, d);
        lemma_eval_expr(st, args[i], env, d, d2, l);
        match r {
            Ok(v) => if super::value::truthy(v) {
                lemma_and_from(st1, args, i + 1, v, env, d, d2, l);
            },
            Err(_) => {},
        }
    }
}

proof fn lemma_or_from(st: SState, args: Seq<SExpr>, i: int, result: SValue, env: usize, d: nat, d2: nat, l: usize)
    requires
        d <= d2,
        within_budget(or_from(st, args, i, result, env, d).1),
    ensures
        same_run(or_from(relimit(st, l), args, i, result, env, d2), or_from(st, args, i, result, env, d), l),
    decreases d, 6int, args.len() - i,
{
    if 0 <= i < args.len() {
        let (st1, r) = eval_expr(st, args[i], env, d);
        lemma_eval_expr(st, args[i], env, d, d2, l);
        match r {
            Ok(v) => if !super::value::truthy(v) {
                lemma_or_from(st1, args, i + 1, v, env, d, d2, l);
            },
            Err(_) => {},
        }
    }
}

proof fn lemma_seq_from(st: SState, es: Seq<SExpr>, i: int, last: SValue, env: usize, d: nat, d2: nat, l: usize)
    requires
        d <= d2,
        within_budget(seq_from(st, es, i, last, env, d).1),
    ensures
        same_run(seq_from(relimit(st, l), es, i, last, env, d2), seq_from(st, es, i, last, env, d), l),
    decreases d, 5int, es.len() - i,
{
    if 0 <= i < es.len() {
        let (st1, r) = eval_expr(st, es[i], env, d);
        lemma_eval_expr(st, es[i], env, d, d2, l);
        match r {
            Ok(v) => lemma_seq_from(st1, es, i + 1, v, env, d, d2, l),
            Err(_) => {},
        }
    }
}

proof fn lemma_values_from(st: SState, es: Seq<SExpr>, i: int, acc: Seq<SValue>, env: usize, d: nat, d2: nat, l: usize)
    requires
        d <= d2,
        within_budget(values_from(st, es, i, acc, env, d).1),
    ensures
        same_run(values_from(relimit(st, l), es, i, acc, env, d2), values_from(st, es, i, acc, env, d), l),
    decreases d, 5int, es.len() - i,
{
    if 0 <= i < es.len() {
        let (st1, r) = eval_expr(st, es[i], env, d);
        lemma_eval_expr(st, es[i], env, d, d2, l);
        match r {
            Ok(v) => lemma_values_from(st1, es, i + 1, acc.push(v), env, d, d2, l),
            Err(_) => {},
        }
    }
}

proof fn lemma_args_from(st: SState, es: Seq<SExpr>, i: int, acc: Seq<SArg>, env: usize, d: nat, d2: nat, l: usize)
    requires
        d <= d2,
        within_budget(args_from(st, es, i, acc, env, d).1),
    ensures
        same_run(args_from(relimit(st, l), es, i, acc, env, d2), args_from(st, es, i, acc, env, d), l),
    decreases d, 5int, es.len() - i,
{
    if 0 <= i < es.len() {
        let (st1, r) = eval_expr(st, es[i], env, d);
        lemma_eval_expr(st, es[i], env, d, d2, l);
        match r {
            Ok(v) => lemma_args_from(
                st1,
                es,
                i + 1,
                acc.push(SArg { value: v, pos: super::expr::sexpr_pos(es[i]) }),
                env,
                d,
                d2,
                l,
            ),
            Err(_) => {},
        }
    }
}

proof fn lemma_apply(st: SState, f: SValue, pos: SourcePos, args: Seq<SExpr>, env: usize, d: nat, d2: nat, l: usize)
    requires
        d <= d2,
        within_budget(apply(st, f, pos, args, env, d).1),
    ensures
        same_run(apply(relimit(st, l), f, pos, args, env, d2), apply(st, f, pos, args, env, d), l),
    decreases d, 14int, 0int,
{
    match f {
        SValue::Builtin(b) => lemma_apply_builtin(st, b, args, env, pos, d, d2, l),
        SValue::Closure(params, body, closure_env) => lemma_apply_closure_exprs(
            st,
            params,
            body,
            closure_env,
            args,
            env,
            pos,
            d,
            d2,
            l,
        ),
        _ => {},
    }
}

proof fn lemma_apply_builtin(st: SState, b: Builtin, args: Seq<SExpr>, env: usize, pos: SourcePos, d: nat, d2: nat, l: usize)
    requires
        d <= d2,
        within_budget(apply_builtin(st, b, args, env, pos, d).1),
    ensures
        same_run(apply_builtin(relimit(st, l), b, args, env, pos, d2), apply_builtin(st, b, args, env, pos, d), l),
    decreases d, 13int, 0int,
{
    let (st1, r) = args_from(st, args, 0, Seq::empty(), env, d);
    lemma_args_from(st, args, 0, Seq::empty(), env, d, d2, l);
    match r {
        Ok(evaluated) => if super::semantics::is_higher_order(b) {
            lemma_higher_order(st1, b, evaluated, pos, d, d2, l);
        } else {
            lemma_builtin_call_relimit(st1, b, evaluated, pos, l);
        },
        Err(_) => {},
    }
}

proof fn lemma_apply_values(st: SState, f: SValue, values: Seq<SValue>, pos: SourcePos, d: nat, d2: nat, l: usize)
    requires
        d <= d2,
        within_budget(super::semantics::apply_values(st, f, values, pos, d).1),
    ensures
        same_run(super::semantics::apply_values(relimit(st, l), f, values, pos, d2), super::semantics::apply_values(st, f, values, pos, d), l),
    decreases d, 3int, 0int,
{
    if d > 0 {
        match f {
            SValue::Builtin(b) => if super::semantics::is_higher_order(b) {
                lemma_higher_order(st, b, super::semantics::args_at(values, pos), pos, (d - 1) as nat, (d2 - 1) as nat, l);
            } else {
                lemma_builtin_call_relimit(st, b, super::semantics::args_at(values, pos), pos, l);
            },
            SValue::Closure(params, body, closure_env) => lemma_apply_closure_values(
                st,
                params,
                body,
                closure_env,
                values,
                pos,
                (d - 1) as nat,
                (d2 - 1) as nat,
                l,
            ),
            _ => {},
        }
    }
}

proof fn lemma_map_from(
    st: SState,
    f: SValue,
    lists: Seq<Seq<SValue>>,
    i: int,
    acc: Seq<SValue>,
    collect: bool,
    pos: SourcePos,
    d: nat,
    d2: nat,
    l: usize,
)
    requires
        d <= d2,
        within_budget(super::semantics::map_from(st, f, lists, i, acc, collect, pos, d).1),
    ensures
        same_run(
            super::semantics::map_from(relimit(st, l), f, lists, i, acc, collect, pos, d2),
            super::semantics::map_from(st, f, lists, i, acc, collect, pos, d),
            l,
        ),
    decreases d, 4int, (if lists.len() == 0 { 0 } else { lists[0].len() }) - i,
{
    if !(lists.len() == 0 || i < 0 || i >= lists[0].len()) {
        let (st1, r) = super::semantics::apply_values(st, f, super::semantics::column(lists, i), pos, d);
        lemma_apply_values(st, f, super::semantics::column(lists, i), pos, d, d2, l);
        match r {
            Ok(v) => lemma_map_from(st1, f, lists, i + 1, acc.push(v), collect, pos, d, d2, l),
            Err(_) => {},
        }
    }
}

proof fn lemma_higher_order(st: SState, b: Builtin, args: Seq<SArg>, pos: SourcePos, d: nat, d2: nat, l: usize)
    requires
        d <= d2,
        within_budget(super::semantics::higher_order(st, b, args, pos, d).1),
    ensures
        same_run(super::semantics::higher_order(relimit(st, l), b, args, pos, d2), super::semantics::higher_order(st, b, args, pos, d), l),
    decreases d, 6int, 0int,
{
    let name = if b == Builtin::Apply {
        "apply"@
    } else if b == Builtin::MapEach {
        "map"@
    } else {
        "for-each"@
    };
    if args.len() >= 2 {
        if b == Builtin::Apply {
            match args[args.len() - 1].value {
                SValue::List(tail) => lemma_apply_values(
                    st,
                    args[0].value,
                    Seq::new((args.len() - 2) as nat, |i: int| args[i + 1].value) + tail,
                    pos,
                    d,
                    d2,
                    l,
                ),
                _ => {},
            }
        } else {
            match super::semantics::lists_of(args, 1, Seq::empty(), name) {
                Ok(lists) => lemma_map_from(st, args[0].value, lists, 0, Seq::empty(), b == Builtin::MapEach, pos, d, d2, l),
                Err(_) => {},
            }
        }
    }
}

proof fn lemma_apply_closure_exprs(
    st: SState,
    params: Seq<Seq<char>>,
    body: Seq<SExpr>,
    closure_env: usize,
    args: Seq<SExpr>,
    env: usize,
    pos: SourcePos,
    d: nat,
    d2: nat,
    l: usize,
)
    requires
        d <= d2,
        within_budget(apply_closure_exprs(st, params, body, closure_env, args, env, pos, d).1),
    ensures
        same_run(
            apply_closure_exprs(relimit(st, l), params, body, closure_env, args, env, pos, d2),
            apply_closure_exprs(st, params, body, closure_env, args, env, pos, d),
            l,
        ),
    decreases d, 13int, 0int,
{
    let (st1, r) = values_from(st, args, 0, Seq::empty(), env, d);
    lemma_values_from(st, args, 0, Seq::empty(), env, d, d2, l);
    match r {
        Ok(values) => lemma_apply_closure_values(st1, params, body, closure_env, values, pos, d, d2, l),
        Err(_) => {},
    }
}

proof fn lemma_apply_closure_values(
    st: SState,
    params: Seq<Seq<char>>,
    body: Seq<SExpr>,
    closure_env: usize,
    values: Seq<SValue>,
    pos: SourcePos,
    d: nat,
    d2: nat,
    l: usize,
)
    requires
        d <= d2,
        within_budget(apply_closure_values(st, params, body, closure_env, values, pos, d).1),
    ensures
        same_run(
            apply_closure_values(relimit(st, l), params, body, closure_env, values, pos, d2),
            apply_closure_values(st, params, body, closure_env, values, pos, d),
            l,
        ),
    decreases d, 11int, 0int,
{
    if super::semantics::takes_rest(params) {
        if values.len() >= params.len() - 2 {
            let names = super::semantics::bound_names(params);
            let vals = super::semantics::bound_values(params, values);
            let (st1, call_env) = super::env::new_frame(st, closure_env);
            let st2 = define_all(st1, call_env as int, names, vals);
            assert(super::env::new_frame(relimit(st, l), closure_env) == (relimit(st1, l), call_env));
            lemma_define_all_relimit(st1, call_env as int, names, vals, l);
            lemma_seq_from(st2, body, 0, SValue::Void, call_env, d, d2, l);
        }
    } else if values.len() == params.len() {
        let (st1, call_env) = super::env::new_frame(st, closure_env);
        let st2 = define_all(st1, call_env as int, params, values);
        assert(super::env::new_frame(relimit(st, l), closure_env) == (relimit(st1, l), call_env));
        lemma_define_all_relimit(st1, call_env as int, params, values, l);
        lemma_seq_from(st2, body, 0, SValue::Void, call_env, d, d2, l);
    }
}

/// A fresh interpreter's state differs between limits only in the limit it records.
pub proof fn lemma_initial_state_relimit(l1: usize, l2: usize)
    ensures
        initial_state(l2) == relimit(initial_state(l1), l2),
{
    let base = SState {
        frames: seq![super::env::SFrame { parent: None, names: Seq::empty(), values: Seq::empty() }],
        strings: Seq::empty(),
        output: Seq::empty(),
        limit: l1,
    };
    lemma_define_all_relimit(
        base,
        0,
        all_builtins().map_values(|b: Builtin| builtin_name(b)),
        all_builtins().map_values(|b: Builtin| SValue::Builtin(b)),
        l2,
    );
    assert(relimit(base, l2) == SState { limit: l2, ..base });
}

/// Evaluating a sequence of expressions with a larger budget gives the same
/// state and result as with a smaller one that sufficed, on a state that
/// records any limit.
pub proof fn law_larger_budget_same_outcome(
    st: SState,
    es: Seq<SExpr>,
    env: usize,
    d: nat,
    d2: nat,
    l: usize,
)
    requires
        d <= d2,
        within_budget(seq_from(st, es, 0, SValue::Void, env, d).1),
    ensures
        same_run(seq_from(relimit(st, l), es, 0, SValue::Void, env, d2), seq_from(st, es, 0, SValue::Void, env, d), l),
{
    lemma_seq_from(st, es, 0, SValue::Void, env, d, d2, l);
}

} // verus!
