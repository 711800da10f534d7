//! The evaluator: runs expressions against the interpreter's state, following
//! the rules stated in `semantics`.
use vstd::prelude::*;

use super::builtins::{arity_err, args_ok, args_view, lemma_args_view, step_ok, type_mismatch, value_result, Arg, SArg};
use super::env::{
    define, define_all, grows, lemma_define_all_ok, lemma_grows_refl, lemma_grows_trans,
    lemma_define_all_get, lookup, new_frame, state_ok, Frame, Interpreter, SFrame, SState,
};
use super::error::{ErrorView, EvalError};
use super::expr::{
    copy_exprs_from, exprs_view, lemma_exprs_view, lemma_exprs_view_push, lemma_exprs_view_skip,
    sexpr_pos, Expr, SExpr,
};
use super::position::SourcePos;
use super::semantics::{
    and_from, apply, apply_builtin, apply_closure_exprs, apply_closure_values, args_from,
    bind_in_turn, cond_from, eval_cond, eval_define, eval_expr, eval_if, eval_set, eval_let_star, eval_lambda, eval_let, eval_list,
    eval_named_let, eval_program, eval_quote, or_from, parse_bindings, parse_params, quote_datum,
    quote_from, seq_from, step_limit, values_from, ArgsOutcome, ValuesOutcome, apply_values, args_at, column,
    higher_order, is_higher_order, lists_of, map_from, primitive_call, case_from, datum_matches, eval_case, matches_any, takes_rest, bound_names, bound_values, do_loop, eval_do, parse_do_bindings,
};
use super::text::{chars_eq, chars_to_string, push_all, push_str, str_chars, usize_text};
use super::value::{
    all_builtins, builtin_index, builtin_name, builtin_named, copy_names, lemma_all_builtins_index, lemma_builtin_name_injective, lemma_value_ok_grow, render, strings_view, Builtin, lemma_value_ok_list, lemma_values_ok_grow, lemma_values_view,
    lemma_values_view_push, names_view, truthy, copy_values_from, value_ok, values_ok, values_view, Closure, SValue,
    Value,
};

verus! {

pub open spec fn values_result(r: Result<Vec<Value>, EvalError>) -> Result<Seq<SValue>, ErrorView> {
    match r {
        Ok(vs) => Ok(values_view(vs@)),
        Err(e) => Err(e@),
    }
}

pub open spec fn args_result(r: Result<Vec<Arg>, EvalError>) -> Result<Seq<SArg>, ErrorView> {
    match r {
        Ok(vs) => Ok(args_view(vs@)),
        Err(e) => Err(e@),
    }
}

pub open spec fn values_step_ok(before: SState, after: SState, r: Result<Vec<Value>, EvalError>, expected: ValuesOutcome) -> bool {
    &&& (after, values_result(r)) == expected
    &&& grows(before, after)
    &&& (r matches Ok(vs) ==> values_ok(values_view(vs@), after.frames.len(), after.strings.len()))
}

pub open spec fn args_step_ok(before: SState, after: SState, r: Result<Vec<Arg>, EvalError>, expected: ArgsOutcome) -> bool {
    &&& (after, args_result(r)) == expected
    &&& grows(before, after)
    &&& (r matches Ok(vs) ==> args_ok(args_view(vs@), after))
}

/// The argument expressions of a form: the items from `start` on.
pub open spec fn rest(items: Seq<Expr>, start: int) -> Seq<SExpr> {
    exprs_view(items).skip(start)
}

pub proof fn lemma_rest(items: Seq<Expr>, start: int)
    requires
        0 <= start <= items.len(),
    ensures
        rest(items, start).len() == items.len() - start,
        forall|i: int| 0 <= i < items.len() - start ==> #[trigger] rest(items, start)[i] == items[start + i]@,
{
    lemma_exprs_view(items);
}

/// The spec function used for truthiness, computed.
fn is_truthy(v: &Value) -> (r: bool)
    ensures
        r == truthy(v@),
{
    match v {
        Value::Boolean(b) => *b,
        _ => true,
    }
}

fn is_word(name: &Vec<char>, word: &str) -> (r: bool)
    ensures
        r == (name@ == word@),
{
    chars_eq(name, &str_chars(word))
}

/// A syntax error whose message is `name` followed by `tail`.
fn syntax_after(pos: SourcePos, name: &str, tail: &str) -> (e: EvalError)
    ensures
        e@ == super::error::syntax_error(pos, name@ + tail@),
{
    let mut msg = str_chars(name);
    push_str(&mut msg, tail);
    EvalError::syntax(pos, &msg)
}

fn syntax(pos: SourcePos, message: &str) -> (e: EvalError)
    ensures
        e@ == super::error::syntax_error(pos, message@),
{
    EvalError::syntax(pos, &str_chars(message))
}

/// The names of a parameter list, from index `start` on.
fn parse_parameters(exprs: &Vec<Expr>, start: usize) -> (r: Result<Vec<Vec<char>>, EvalError>)
    requires
        start <= exprs@.len(),
    ensures
        match parse_params(exprs_view(exprs@), start as int, Seq::empty()) {
            Ok(names) => r matches Ok(x) && names_view(x@) == names,
            Err(e) => r matches Err(x) && x@ == e,
        },
{
    let ghost es = exprs_view(exprs@);
    proof {
        lemma_exprs_view(exprs@);
    }
    let mut parameters: Vec<Vec<char>> = Vec::new();
    proof {
        assert(names_view(parameters@) =~= Seq::<Seq<char>>::empty());
    }
    let mut i = start;
    while i < exprs.len()
        invariant
            start <= i <= exprs@.len(),
            es == exprs_view(exprs@),
            es.len() == exprs@.len(),
            forall|j: int| 0 <= j < exprs@.len() ==> #[trigger] es[j] == exprs@[j]@,
            parse_params(es, i as int, names_view(parameters@)) == parse_params(es, start as int, Seq::empty()),
        decreases exprs@.len() - i,
    {
        match &exprs[i] {
            Expr::Symbol(name, dot_pos) => {
                if is_word(name, ".") {
                    if i + 1 >= exprs.len() {
                        return Err(syntax(*dot_pos, "rest parameter requires a name"));
                    }
                    proof {
                        assert(es[i + 1] == exprs@[i + 1]@);
                    }
                    match &exprs[i + 1] {
                        Expr::Symbol(rest_name, rest_pos) => {
                            if is_word(rest_name, ".") {
                                return Err(syntax(*rest_pos, "parameters must be symbols"));
                            }
                            if i + 2 < exprs.len() {
                                return Err(syntax(*dot_pos, "rest parameter must be last"));
                            }
                            let ghost before = parameters@;
                            parameters.push(Vec::new());
                            parameters.push(rest_name.clone());
                            proof {
                                assert(names_view(parameters@) =~= names_view(before).push(Seq::empty()).push(rest_name@));
                            }
                            return Ok(parameters);
                        },
                        other => {
                            return Err(syntax(other.position(), "parameters must be symbols"));
                        },
                    }
                }
                let ghost before = parameters@;
                parameters.push(name.clone());
                proof {
                    assert(names_view(parameters@) =~= names_view(before).push(name@));
                }
            },
            other => {
                return Err(syntax(other.position(), "parameters must be symbols"));
            },
        }
        i = i + 1;
    }
    Ok(parameters)
}

/// The names and value expressions of `let` bindings.
fn parse_bindings_exec(exprs: &Vec<Expr>) -> (r: Result<(Vec<Vec<char>>, Vec<Expr>), EvalError>)
    ensures
        match parse_bindings(exprs_view(exprs@), 0, Seq::empty(), Seq::empty()) {
            Ok((names, values)) => r matches Ok(x) && names_view(x.0@) == names && exprs_view(x.1@) == values
                && x.0@.len() == x.1@.len(),
            Err(e) => r matches Err(x) && x@ == e,
        },
{
    let ghost es = exprs_view(exprs@);
    proof {
        lemma_exprs_view(exprs@);
        assert(names_view(Seq::<Vec<char>>::empty()) =~= Seq::<Seq<char>>::empty());
    }
    let mut names: Vec<Vec<char>> = Vec::new();
    let mut values: Vec<Expr> = Vec::new();
    let mut i: usize = 0;
    while i < exprs.len()
        invariant
            i <= exprs@.len(),
            es == exprs_view(exprs@),
            es.len() == exprs@.len(),
            forall|j: int| 0 <= j < exprs@.len() ==> #[trigger] es[j] == exprs@[j]@,
            parse_bindings(es, i as int, names_view(names@), exprs_view(values@))
                == parse_bindings(es, 0, Seq::empty(), Seq::empty()),
            names@.len() == values@.len(),
        decreases exprs@.len() - i,
    {
        match &exprs[i] {
            Expr::List(binding, binding_pos) => {
                proof {
                    lemma_exprs_view(binding@);
                }
                if binding.len() != 2 {
                    return Err(syntax(*binding_pos, "let binding must have exactly 2 elements"));
                }
                match &binding[0] {
                    Expr::Symbol(name, _) => {
                        let ghost nb = names@;
                        let ghost vb = values@;
                        names.push(name.clone());
                        let e = binding[1].copy();
                        proof {
                            lemma_exprs_view_push(vb, e);
                        }
                        values.push(e);
                        proof {
                            assert(names_view(names@) =~= names_view(nb).push(name@));
                        }
                    },
                    other => {
                        return Err(syntax(other.position(), "let binding name must be a symbol"));
                    },
                }
            },
            other => {
                return Err(syntax(other.position(), "let bindings must be lists"));
            },
        }
        i = i + 1;
    }
    Ok((names, values))
}

/// The bindings of a `do`: names, initial expressions and step expressions.
fn parse_do_bindings_exec(exprs: &Vec<Expr>) -> (r: Result<(Vec<Vec<char>>, Vec<Expr>, Vec<Expr>), EvalError>)
    ensures
        match parse_do_bindings(exprs_view(exprs@), 0, Seq::empty(), Seq::empty(), Seq::empty()) {
            Ok((names, inits, steps)) => r matches Ok(x) && names_view(x.0@) == names && exprs_view(x.1@) == inits
                && exprs_view(x.2@) == steps && x.0@.len() == x.1@.len() && x.0@.len() == x.2@.len(),
            Err(e) => r matches Err(x) && x@ == e,
        },
{
    let ghost es = exprs_view(exprs@);
    proof {
        lemma_exprs_view(exprs@);
        assert(names_view(Seq::<Vec<char>>::empty()) =~= Seq::<Seq<char>>::empty());
        assert(exprs_view(Seq::<Expr>::empty()) =~= Seq::<SExpr>::empty());
    }
    let mut names: Vec<Vec<char>> = Vec::new();
    let mut inits: Vec<Expr> = Vec::new();
    let mut steps: Vec<Expr> = Vec::new();
    let mut i: usize = 0;
    while i < exprs.len()
        invariant
            i <= exprs@.len(),
            es == exprs_view(exprs@),
            es.len() == exprs@.len(),
            forall|j: int| 0 <= j < exprs@.len() ==> #[trigger] es[j] == exprs@[j]@,
            parse_do_bindings(es, i as int, names_view(names@), exprs_view(inits@), exprs_view(steps@))
                == parse_do_bindings(es, 0, Seq::empty(), Seq::empty(), Seq::empty()),
            names@.len() == inits@.len(),
            names@.len() == steps@.len(),
        decreases exprs@.len() - i,
    {
        match &exprs[i] {
            Expr::List(binding, binding_pos) => {
                proof {
                    lemma_exprs_view(binding@);
                }
                if binding.len() != 2 && binding.len() != 3 {
                    return Err(syntax(*binding_pos, "each do binding must contain a name, init, and optional step"));
                }
                match &binding[0] {
                    Expr::Symbol(name, name_pos) => {
                        let ghost nb = names@;
                        let ghost ib = inits@;
                        let ghost sb = steps@;
                        names.push(name.clone());
                        let e = binding[1].copy();
                        let step = if binding.len() == 3 {
                            binding[2].copy()
                        } else {
                            Expr::Symbol(name.clone(), *name_pos)
                        };
                        proof {
                            lemma_exprs_view_push(ib, e);
                            lemma_exprs_view_push(sb, step);
                        }
                        inits.push(e);
                        steps.push(step);
                        proof {
                            assert(names_view(names@) =~= names_view(nb).push(name@));
                        }
                    },
                    other => {
                        return Err(syntax(other.position(), "do binding name must be a symbol"));
                    },
                }
            },
            other => {
                return Err(syntax(other.position(), "do bindings must be lists"));
            },
        }
        i = i + 1;
    }
    Ok((names, inits, steps))
}

impl Interpreter {
    /// Binds each name to the value at the same place, in order.
    fn define_all(&mut self, env: usize, names: &Vec<Vec<char>>, values: &Vec<Value>)
        requires
            old(self).ok(),
            env < old(self)@.frames.len(),
            names@.len() == values@.len(),
            values_ok(values_view(values@), old(self)@.frames.len(), old(self)@.strings.len()),
        ensures
            final(self).ok(),
            final(self)@ == define_all(old(self)@, env as int, names_view(names@), values_view(values@)),
            grows(old(self)@, final(self)@),
    {
        let ghost nv = names_view(names@);
        let ghost vv = values_view(values@);
        proof {
            lemma_values_view(values@);
            lemma_grows_refl(self@);
            assert(nv.take(0) =~= Seq::<Seq<char>>::empty());
            assert(vv.take(0) =~= Seq::<SValue>::empty());
        }
        let mut i: usize = 0;
        while i < names.len()
            invariant
                i <= names@.len(),
                names@.len() == values@.len(),
                nv == names_view(names@),
                vv == values_view(values@),
                vv.len() == values@.len(),
                forall|j: int| 0 <= j < values@.len() ==> #[trigger] vv[j] == values@[j]@,
                self.ok(),
                env < self@.frames.len(),
                self@.frames.len() == old(self)@.frames.len(),
                self@.strings.len() == old(self)@.strings.len(),
                values_ok(vv, old(self)@.frames.len(), old(self)@.strings.len()),
                self@ == define_all(old(self)@, env as int, nv.take(i as int), vv.take(i as int)),
                grows(old(self)@, self@),
            decreases names@.len() - i,
        {
            let ghost before = self@;
            proof {
                assert(value_ok(vv[i as int], old(self)@.frames.len(), old(self)@.strings.len()));
            }
            self.define(env, names[i].clone(), values[i].copy());
            proof {
                assert(nv.take(i + 1).drop_last() =~= nv.take(i as int));
                assert(vv.take(i + 1).drop_last() =~= vv.take(i as int));
                assert(nv.take(i + 1).last() == names@[i as int]@);
                assert(vv.take(i + 1).last() == values@[i as int]@);
                lemma_grows_trans(old(self)@, before, self@);
            }
            i = i + 1;
        }
        proof {
            assert(nv.take(i as int) =~= nv);
            assert(vv.take(i as int) =~= vv);
        }
    }

    /// The value that a quoted expression stands for.
    fn quote(&mut self, e: &Expr) -> (r: Value)
        requires
            old(self).ok(),
        ensures
            final(self).ok(),
            (final(self)@, r@) == quote_datum(old(self)@, e@),
            grows(old(self)@, final(self)@),
            value_ok(r@, final(self)@.frames.len(), final(self)@.strings.len()),
        decreases e,
    {
        proof {
            lemma_grows_refl(self@);
        }
        match e {
            Expr::Integer(v, _) => Value::Integer(*v),
            Expr::Boolean(b, _) => Value::Boolean(*b),
            Expr::String(s, _) => {
                let h = self.alloc_string(s.clone());
                Value::String(h)
            },
            Expr::Character(c, _) => Value::character(*c),
            Expr::Symbol(name, _) => Value::Symbol(name.clone()),
            Expr::List(items, _) => {
                let ghost iv = exprs_view(items@);
                proof {
                    lemma_exprs_view(items@);
                    assert(decreases_to!(*e => (*e)->List_0));
                }
                let mut values: Vec<Value> = Vec::new();
                let mut i: usize = 0;
                while i < items.len()
                    invariant
                        i <= items@.len(),
                        *e == Expr::List(*items, sexpr_pos(e@)),
                        iv == exprs_view(items@),
                        iv.len() == items@.len(),
                        forall|j: int| 0 <= j < items@.len() ==> #[trigger] iv[j] == items@[j]@,
                        self.ok(),
                        grows(old(self)@, self@),
                        values_ok(values_view(values@), self@.frames.len(), self@.strings.len()),
                        quote_from(self@, iv, i as int, values_view(values@)) == quote_from(old(self)@, iv, 0, Seq::empty()),
                    decreases items@.len() - i,
                {
                    proof {
                        assert(decreases_to!(*items => items[i as int]));
                    }
                    let ghost before = self@;
                    let v = self.quote(&items[i]);
                    proof {
                        lemma_grows_trans(old(self)@, before, self@);
                        lemma_values_view_push(values@, v);
                        lemma_values_ok_grow(values_view(values@), before.frames.len(), before.strings.len(), self@.frames.len(), self@.strings.len());
                        lemma_values_view(values@);
                    }
                    values.push(v);
                    proof {
                        lemma_values_view(values@);
                        assert forall|j: int| 0 <= j < values_view(values@).len() implies value_ok(
                            #[trigger] values_view(values@)[j], self@.frames.len(), self@.strings.len()) by {
                            if j < values@.len() - 1 {
                                assert(values_view(values@)[j] == values_view(values@.drop_last())[j]);
                            }
                        }
                    }
                    i = i + 1;
                }
                proof {
                    lemma_value_ok_list(values_view(values@), self@.frames.len(), self@.strings.len());
                }
                Value::List(values)
            },
        }
    }

    /// A closure from a `lambda` form.
    fn eval_lambda(&self, items: &Vec<Expr>, start: usize, env: usize, pos: SourcePos) -> (r: Result<Value, EvalError>)
        requires
            self.ok(),
            start <= items@.len(),
            env < self@.frames.len(),
        ensures
            step_ok(self@, self@, r, (self@, eval_lambda(rest(items@, start as int), env, pos))),
    {
        proof {
            lemma_grows_refl(self@);
            lemma_rest(items@, start as int);
        }
        if items.len() - start < 2 {
            return Err(syntax(pos, "lambda expects a parameter list and body"));
        }
        match &items[start] {
            Expr::List(parameters, _) => {
                let names = parse_parameters(parameters, 0)?;
                let body = copy_exprs_from(items, start + 1);
                proof {
                    lemma_exprs_view_skip(items@, start + 1);
                    lemma_exprs_view(items@);
                    assert(rest(items@, start as int).skip(1) =~= exprs_view(items@).skip(start + 1));
                }
                Ok(Value::Closure(Closure { parameters: names, body, env }))
            },
            other => Err(syntax(other.position(), "lambda parameters must be a list")),
        }
    }
}


impl Interpreter {
    /// Evaluates `expr` in frame `env`, with `depth` nested eval dispatches left.
    pub fn eval(&mut self, expr: &Expr, env: usize, depth: usize) -> (r: Result<Value, EvalError>)
        requires
            old(self).ok(),
            env < old(self)@.frames.len(),
        ensures
            final(self).ok(),
            step_ok(old(self)@, final(self)@, r, eval_expr(old(self)@, expr@, env, depth as nat)),
        decreases depth, 0int, 0int,
    {
        proof {
            lemma_grows_refl(self@);
        }
        if depth == 0 {
            return Err(EvalError::step_limit_exceeded(self.max_steps));
        }
        match expr {
            Expr::Integer(v, _) => Ok(Value::Integer(*v)),
            Expr::Boolean(b, _) => Ok(Value::Boolean(*b)),
            Expr::String(s, _) => {
                let h = self.alloc_string(s.clone());
                Ok(Value::String(h))
            },
            Expr::Character(c, _) => Ok(Value::character(*c)),
            Expr::Symbol(name, pos) => match self.lookup(env, name) {
                Some(v) => Ok(v),
                None => {
                    let mut msg = str_chars("unbound variable: ");
                    push_all(&mut msg, name);
                    Err(EvalError::at(*pos, &msg))
                },
            },
            Expr::List(items, pos) => self.eval_list(items, *pos, env, depth - 1),
        }
    }

    fn eval_list(&mut self, items: &Vec<Expr>, pos: SourcePos, env: usize, d: usize) -> (r: Result<Value, EvalError>)
        requires
            old(self).ok(),
            env < old(self)@.frames.len(),
        ensures
            final(self).ok(),
            step_ok(old(self)@, final(self)@, r, eval_list(old(self)@, exprs_view(items@), pos, env, d as nat)),
        decreases d, 20int, 0int,
    {
        proof {
            lemma_grows_refl(self@);
            lemma_exprs_view(items@);
        }
        if items.len() == 0 {
            return Err(syntax(pos, "cannot evaluate empty list"));
        }
        proof {
            assert(exprs_view(items@).skip(1) == rest(items@, 1));
        }
        match &items[0] {
            Expr::Symbol(name, op_pos) => {
                if is_word(name, "define") {
                    return self.eval_define(items, 1, env, *op_pos, d);
                }
                if is_word(name, "set!") {
                    return self.eval_set(items, 1, env, *op_pos, d);
                }
                if is_word(name, "if") {
                    return self.eval_if(items, 1, env, *op_pos, d);
                }
                if is_word(name, "quote") {
                    return self.eval_quote_form(items, 1, *op_pos);
                }
                if is_word(name, "lambda") {
                    return self.eval_lambda(items, 1, env, *op_pos);
                }
                if is_word(name, "begin") {
                    return self.eval_sequence(items, 1, env, d);
                }
                if is_word(name, "let") {
                    return self.eval_let(items, 1, env, *op_pos, d);
                }
                if is_word(name, "let*") {
                    return self.eval_let_star(items, 1, env, *op_pos, d, false, "let*");
                }
                if is_word(name, "letrec") {
                    return self.eval_let_star(items, 1, env, *op_pos, d, true, "letrec");
                }
                if is_word(name, "letrec*") {
                    return self.eval_let_star(items, 1, env, *op_pos, d, true, "letrec*");
                }
                if is_word(name, "cond") {
                    return self.eval_cond(items, 1, env, *op_pos, d);
                }
                if is_word(name, "case") {
                    return self.eval_case(items, 1, env, *op_pos, d);
                }
                if is_word(name, "do") {
                    return self.eval_do(items, 1, env, *op_pos, d);
                }
                if is_word(name, "and") {
                    return self.eval_and(items, 1, env, d);
                }
                if is_word(name, "or") {
                    return self.eval_or(items, 1, env, d);
                }
                let ghost before = self@;
                let f = self.eval(&items[0], env, d)?;
                let ghost mid = self@;
                let r = self.apply(f, *op_pos, items, 1, env, d);
                proof {
                    lemma_grows_trans(before, mid, self@);
                }
                r
            },
            _ => {
                let ghost before = self@;
                let f = self.eval(&items[0], env, d)?;
                let ghost mid = self@;
                let r = self.apply(f, items[0].position(), items, 1, env, d);
                proof {
                    lemma_grows_trans(before, mid, self@);
                }
                r
            },
        }
    }

    #[verifier::rlimit(40)]
    fn eval_define(&mut self, items: &Vec<Expr>, start: usize, env: usize, pos: SourcePos, d: usize) -> (r: Result<Value, EvalError>)
        requires
            old(self).ok(),
            env < old(self)@.frames.len(),
            start <= items@.len(),
        ensures
            final(self).ok(),
            step_ok(old(self)@, final(self)@, r, eval_define(old(self)@, rest(items@, start as int), env, pos, d as nat)),
        decreases d, 15int, 0int,
    {
        proof {
            lemma_grows_refl(self@);
            lemma_rest(items@, start as int);
        }
        if items.len() - start < 2 {
            return Err(syntax(pos, "define expects a target and value"));
        }
        match &items[start] {
            Expr::Symbol(name, _) => {
                if items.len() - start != 2 {
                    return Err(syntax(pos, "define variable form expects exactly one value expression"));
                }
                let ghost before = self@;
                let v = self.eval(&items[start + 1], env, d)?;
                let ghost mid = self@;
                self.define(env, name.clone(), v);
                proof {
                    lemma_grows_trans(before, mid, self@);
                }
                Ok(Value::Void)
            },
            Expr::List(signature, signature_pos) => {
                proof {
                    lemma_exprs_view(signature@);
                }
                if signature.len() == 0 {
                    return Err(syntax(*signature_pos, "define function form requires a function name"));
                }
                match &signature[0] {
                    Expr::Symbol(name, _) => {
                        let parameters = parse_parameters(signature, 1)?;
                        let body = copy_exprs_from(items, start + 1);
                        proof {
                            lemma_exprs_view_skip(items@, start + 1);
                            lemma_exprs_view(items@);
                            assert(rest(items@, start as int).skip(1) =~= exprs_view(items@).skip(start + 1));
                            lemma_exprs_view(body@);
                        }
                        if body.len() == 0 {
                            return Err(syntax(pos, "define function form requires a body"));
                        }
                        let closure = Value::Closure(Closure { parameters, body, env });
                        self.define(env, name.clone(), closure);
                        Ok(Value::Void)
                    },
                    other => Err(syntax(other.position(), "function name must be a symbol")),
                }
            },
            other => Err(syntax(other.position(), "invalid define target")),
        }
    }

    fn eval_set(&mut self, items: &Vec<Expr>, start: usize, env: usize, pos: SourcePos, d: usize) -> (r: Result<Value, EvalError>)
        requires
            old(self).ok(),
            env < old(self)@.frames.len(),
            start <= items@.len(),
        ensures
            final(self).ok(),
            step_ok(old(self)@, final(self)@, r, eval_set(old(self)@, rest(items@, start as int), env, pos, d as nat)),
        decreases d, 15int, 0int,
    {
        proof {
            lemma_grows_refl(self@);
            lemma_rest(items@, start as int);
        }
        if items.len() - start != 2 {
            return Err(syntax(pos, "set! expects exactly 2 arguments"));
        }
        match &items[start] {
            Expr::Symbol(name, name_pos) => {
                let ghost before = self@;
                let v = self.eval(&items[start + 1], env, d)?;
                let ghost mid = self@;
                match self.binding_frame(env, name) {
                    Some(f) => {
                        self.define(f, name.clone(), v);
                        proof {
                            lemma_grows_trans(before, mid, self@);
                        }
                        Ok(Value::Void)
                    },
                    None => {
                        let mut msg = str_chars("unbound variable: ");
                        push_all(&mut msg, name);
                        Err(EvalError::at(*name_pos, &msg))
                    },
                }
            },
            other => Err(syntax(other.position(), "set! expected a symbol target")),
        }
    }

    fn eval_if(&mut self, items: &Vec<Expr>, start: usize, env: usize, pos: SourcePos, d: usize) -> (r: Result<Value, EvalError>)
        requires
            old(self).ok(),
            env < old(self)@.frames.len(),
            start <= items@.len(),
        ensures
            final(self).ok(),
            step_ok(old(self)@, final(self)@, r, eval_if(old(self)@, rest(items@, start as int), env, pos, d as nat)),
        decreases d, 15int, 0int,
    {
        proof {
            lemma_grows_refl(self@);
            lemma_rest(items@, start as int);
        }
        if items.len() - start != 3 {
            return Err(syntax(pos, "if expects exactly 3 arguments"));
        }
        let ghost before = self@;
        let test = self.eval(&items[start], env, d)?;
        let ghost mid = self@;
        let r = if is_truthy(&test) {
            self.eval(&items[start + 1], env, d)
        } else {
            self.eval(&items[start + 2], env, d)
        };
        proof {
            lemma_grows_trans(before, mid, self@);
        }
        r
    }

    fn eval_quote_form(&mut self, items: &Vec<Expr>, start: usize, pos: SourcePos) -> (r: Result<Value, EvalError>)
        requires
            old(self).ok(),
            start <= items@.len(),
        ensures
            final(self).ok(),
            step_ok(old(self)@, final(self)@, r, eval_quote(old(self)@, rest(items@, start as int), pos)),
    {
        proof {
            lemma_grows_refl(self@);
            lemma_rest(items@, start as int);
        }
        if items.len() - start != 1 {
            return Err(syntax(pos, "quote expects exactly 1 argument"));
        }
        Ok(self.quote(&items[start]))
    }

    #[verifier::rlimit(40)]
    fn eval_let(&mut self, items: &Vec<Expr>, start: usize, env: usize, pos: SourcePos, d: usize) -> (r: Result<Value, EvalError>)
        requires
            old(self).ok(),
            env < old(self)@.frames.len(),
            start <= items@.len(),
        ensures
            final(self).ok(),
            step_ok(old(self)@, final(self)@, r, eval_let(old(self)@, rest(items@, start as int), env, pos, d as nat)),
        decreases d, 15int, 0int,
    {
        proof {
            lemma_grows_refl(self@);
            lemma_rest(items@, start as int);
        }
        if items.len() - start < 2 {
            return Err(syntax(pos, "let expects bindings and a body"));
        }
        match &items[start] {
            Expr::Symbol(name, _) => {
                if items.len() - start < 3 {
                    return Err(syntax(pos, "named let expects bindings and a body"));
                }
                match &items[start + 1] {
                    Expr::List(bindings, _) => {
                        proof {
                            lemma_exprs_view(items@);
                            lemma_rest(items@, start + 2);
                            assert(rest(items@, start as int).skip(2) =~= rest(items@, start + 2));
                        }
                        self.eval_named_let(name, bindings, items, start + 2, env, pos, d)
                    },
                    other => Err(syntax(other.position(), "named let bindings must be a list")),
                }
            },
            Expr::List(bindings, _) => {
                let (names, exprs) = parse_bindings_exec(bindings)?;
                let ghost before = self@;
                proof {
                    assert(rest(exprs@, 0) =~= exprs_view(exprs@));
                }
                let values = self.eval_arguments(&exprs, 0, env, d)?;
                let ghost mid = self@;
                let let_env = self.new_frame(env);
                let ghost mid2 = self@;
                proof {
                    lemma_values_ok_grow(values_view(values@), mid.frames.len(), mid.strings.len(), self@.frames.len(), self@.strings.len());
                    lemma_values_view(values@);
                    lemma_grows_trans(before, mid, mid2);
                }
                self.define_all(let_env, &names, &values);
                let ghost mid3 = self@;
                proof {
                    lemma_grows_trans(before, mid2, mid3);
                    lemma_exprs_view(items@);
                    lemma_rest(items@, start + 1);
                    assert(rest(items@, start as int).skip(1) =~= rest(items@, start + 1));
                }
                let r = self.eval_sequence(items, start + 1, let_env, d);
                proof {
                    lemma_grows_trans(before, mid3, self@);
                }
                r
            },
            other => Err(syntax(other.position(), "let bindings must be a list")),
        }
    }
}


impl Interpreter {
    #[verifier::rlimit(60)]
    fn eval_let_star(&mut self, items: &Vec<Expr>, start: usize, env: usize, pos: SourcePos, d: usize, rec: bool, form: &str) -> (r: Result<Value, EvalError>)
        requires
            old(self).ok(),
            env < old(self)@.frames.len(),
            start <= items@.len(),
        ensures
            final(self).ok(),
            step_ok(old(self)@, final(self)@, r, eval_let_star(old(self)@, rest(items@, start as int), env, pos, d as nat, rec, form@)),
        decreases d, 15int, 0int,
    {
        proof {
            lemma_grows_refl(self@);
            lemma_rest(items@, start as int);
        }
        if items.len() - start < 2 {
            return Err(syntax_after(pos, form, " expects bindings and a body"));
        }
        match &items[start] {
            Expr::List(bindings, _) => {
                let (names, exprs) = parse_bindings_exec(bindings)?;
                let ghost before = self@;
                let ghost nv = names_view(names@);
                let ghost ev = exprs_view(exprs@);
                let ghost body = rest(items@, start as int).skip(1);
                let frame = self.new_frame(env);
                if rec {
                    let mut falses: Vec<Value> = Vec::new();
                    let mut k: usize = 0;
                    while k < names.len()
                        invariant
                            k <= names@.len(),
                            values_view(falses@).len() == k,
                            forall|j: int| 0 <= j < k ==> #[trigger] values_view(falses@)[j] == SValue::Boolean(false),
                        decreases names@.len() - k,
                    {
                        proof {
                            lemma_values_view_push(falses@, Value::Boolean(false));
                        }
                        falses.push(Value::Boolean(false));
                        k = k + 1;
                    }
                    proof {
                        lemma_values_view(falses@);
                        assert(values_view(falses@) =~= Seq::new(nv.len(), |j: int| SValue::Boolean(false)));
                        assert forall|j: int| 0 <= j < values_view(falses@).len() implies value_ok(
                            #[trigger] values_view(falses@)[j], self@.frames.len(), self@.strings.len()) by {}
                    }
                    let ghost mid = self@;
                    self.define_all(frame, &names, &falses);
                    proof {
                        lemma_grows_trans(before, mid, self@);
                    }
                }
                proof {
                    lemma_exprs_view(exprs@);
                    lemma_exprs_view(items@);
                    lemma_rest(items@, start + 1);
                    assert(rest(items@, start as int).skip(1) =~= rest(items@, start + 1));
                }
                let mut i: usize = 0;
                while i < exprs.len()
                    invariant
                        self.ok(),
                        i <= exprs@.len(),
                        names@.len() == exprs@.len(),
                        nv == names_view(names@),
                        ev == exprs_view(exprs@),
                        nv.len() == names@.len(),
                        ev.len() == exprs@.len(),
                        forall|j: int| 0 <= j < exprs@.len() ==> #[trigger] ev[j] == exprs@[j]@,
                        frame < self@.frames.len(),
                        grows(old(self)@, self@),
                        body == rest(items@, start + 1),
                        eval_let_star(old(self)@, rest(items@, start as int), env, pos, d as nat, rec, form@) == bind_in_turn(
                            self@,
                            nv,
                            ev,
                            i as int,
                            frame,
                            body,
                            d as nat,
                        ),
                    decreases exprs@.len() - i,
                {
                    let ghost prev = self@;
                    let v = match self.eval(&exprs[i], frame, d) {
                        Ok(v) => v,
                        Err(e) => {
                            proof {
                                lemma_grows_trans(old(self)@, prev, self@);
                            }
                            return Err(e);
                        },
                    };
                    let ghost mid = self@;
                    proof {
                        assert(nv[i as int] == names@[i as int]@);
                    }
                    self.define(frame, names[i].clone(), v);
                    proof {
                        lemma_grows_trans(old(self)@, prev, mid);
                        lemma_grows_trans(old(self)@, mid, self@);
                    }
                    i = i + 1;
                }
                let ghost last = self@;
                let r = self.eval_sequence(items, start + 1, frame, d);
                proof {
                    lemma_grows_trans(old(self)@, last, self@);
                }
                r
            },
            other => Err(syntax_after(other.position(), form, " bindings must be a list")),
        }
    }

    #[verifier::rlimit(40)]
    fn eval_named_let(
        &mut self,
        name: &Vec<char>,
        bindings: &Vec<Expr>,
        items: &Vec<Expr>,
        body_start: usize,
        env: usize,
        pos: SourcePos,
        d: usize,
    ) -> (r: Result<Value, EvalError>)
        requires
            old(self).ok(),
            env < old(self)@.frames.len(),
            body_start <= items@.len(),
        ensures
            final(self).ok(),
            step_ok(
                old(self)@,
                final(self)@,
                r,
                eval_named_let(old(self)@, name@, exprs_view(bindings@), rest(items@, body_start as int), env, pos, d as nat),
            ),
        decreases d, 12int, 0int,
    {
        proof {
            lemma_grows_refl(self@);
            lemma_exprs_view_skip(items@, body_start as int);
        }
        let ghost before = self@;
        let (names, exprs) = parse_bindings_exec(bindings)?;
        proof {
            assert(rest(exprs@, 0) =~= exprs_view(exprs@));
        }
        let values = self.eval_arguments(&exprs, 0, env, d)?;
        let ghost mid = self@;
        let named_env = self.new_frame(env);
        let ghost mid2 = self@;
        let body = copy_exprs_from(items, body_start);
        let stored = Closure { parameters: copy_names(&names), body, env: named_env };
        proof {
            lemma_grows_trans(before, mid, mid2);
            lemma_values_ok_grow(values_view(values@), mid.frames.len(), mid.strings.len(), mid2.frames.len(), mid2.strings.len());
        }
        self.define(named_env, name.clone(), Value::Closure(stored));
        let ghost mid3 = self@;
        let body = copy_exprs_from(items, body_start);
        let closure = Closure { parameters: names, body, env: named_env };
        proof {
            lemma_grows_trans(before, mid2, mid3);
        }
        let r = self.apply_closure_values(&closure, values, pos, d);
        proof {
            lemma_grows_trans(before, mid3, self@);
        }
        r
    }

    #[verifier::rlimit(60)]
    fn eval_cond(&mut self, items: &Vec<Expr>, start: usize, env: usize, pos: SourcePos, d: usize) -> (r: Result<Value, EvalError>)
        requires
            old(self).ok(),
            env < old(self)@.frames.len(),
            start <= items@.len(),
        ensures
            final(self).ok(),
            step_ok(old(self)@, final(self)@, r, eval_cond(old(self)@, rest(items@, start as int), env, pos, d as nat)),
        decreases d, 15int, 0int,
    {
        proof {
            lemma_grows_refl(self@);
            lemma_rest(items@, start as int);
        }
        let ghost args = rest(items@, start as int);
        if items.len() - start == 0 {
            return Err(syntax(pos, "cond expects at least one clause"));
        }
        let count = items.len() - start;
        let mut index: usize = 0;
        while index < count
            invariant
                start <= items@.len(),
                count == items@.len() - start,
                start + count == items@.len(),
                items@.len() <= usize::MAX,
                args == rest(items@, start as int),
                args.len() == count,
                forall|i: int| 0 <= i < count ==> #[trigger] args[i] == items@[start + i]@,
                index <= count,
                self.ok(),
                env < self@.frames.len(),
                grows(old(self)@, self@),
                cond_from(self@, args, index as int, env, d as nat) == cond_from(old(self)@, args, 0, env, d as nat),
            decreases count - index,
        {
            let clause_expr = &items[start + index];
            match clause_expr {
                Expr::List(clause, clause_pos) => {
                    proof {
                        lemma_exprs_view(clause@);
                    }
                    if clause.len() == 0 {
                        return Err(syntax(*clause_pos, "cond clause cannot be empty"));
                    }
                    proof {
                        lemma_rest(clause@, 1);
                        assert(exprs_view(clause@).skip(1) == rest(clause@, 1));
                    }
                    let ghost before = self@;
                    match &clause[0] {
                        Expr::Symbol(name, test_pos) => {
                            if is_word(name, "else") {
                                if index != count - 1 {
                                    return Err(syntax(*test_pos, "else clause must be last"));
                                }
                                let r = self.eval_sequence(clause, 1, env, d);
                                proof {
                                    lemma_grows_trans(old(self)@, before, self@);
                                }
                                return r;
                            }
                        },
                        _ => {},
                    }
                    let test_value = match self.eval(&clause[0], env, d) {
                        Ok(v) => v,
                        Err(e) => {
                            proof {
                                lemma_grows_trans(old(self)@, before, self@);
                            }
                            return Err(e);
                        },
                    };
                    let ghost mid = self@;
                    proof {
                        lemma_grows_trans(old(self)@, before, mid);
                    }
                    if is_truthy(&test_value) {
                        if clause.len() == 1 {
                            return Ok(test_value);
                        }
                        let r = self.eval_sequence(clause, 1, env, d);
                        proof {
                            lemma_grows_trans(old(self)@, mid, self@);
                        }
                        return r;
                    }
                },
                other => {
                    return Err(syntax(other.position(), "cond clauses must be lists"));
                },
            }
            index = index + 1;
        }
        Ok(Value::Void)
    }

    fn eval_case(&mut self, items: &Vec<Expr>, start: usize, env: usize, pos: SourcePos, d: usize) -> (r: Result<Value, EvalError>)
        requires
            old(self).ok(),
            env < old(self)@.frames.len(),
            start <= items@.len(),
        ensures
            final(self).ok(),
            step_ok(old(self)@, final(self)@, r, eval_case(old(self)@, rest(items@, start as int), env, pos, d as nat)),
        decreases d, 15int, 0int,
    {
        proof {
            lemma_grows_refl(self@);
            lemma_rest(items@, start as int);
        }
        let ghost args = rest(items@, start as int);
        if items.len() - start == 0 {
            return Err(syntax(pos, "case requires a key and at least one clause"));
        }
        if items.len() - start == 1 {
            return Err(syntax(pos, "case requires at least one clause"));
        }
        proof {
            assert(args[0] == items@[start as int]@);
        }
        let key = match self.eval(&items[start], env, d) {
            Ok(v) => v,
            Err(e) => {
                return Err(e);
            },
        };
        let count = items.len() - start;
        let mut index: usize = 1;
        while index < count
            invariant
                start <= items@.len(),
                count == items@.len() - start,
                start + count == items@.len(),
                items@.len() <= usize::MAX,
                args == rest(items@, start as int),
                args.len() == count,
                forall|i: int| 0 <= i < count ==> #[trigger] args[i] == items@[start + i]@,
                1 <= index <= count,
                self.ok(),
                env < self@.frames.len(),
                grows(old(self)@, self@),
                case_from(self@, args, index as int, key@, env, d as nat) == eval_case(old(self)@, args, env, pos, d as nat),
            decreases count - index,
        {
            let clause_expr = &items[start + index];
            match clause_expr {
                Expr::List(clause, clause_pos) => {
                    proof {
                        lemma_exprs_view(clause@);
                    }
                    if clause.len() == 0 {
                        return Err(syntax(*clause_pos, "case clause cannot be empty"));
                    }
                    proof {
                        lemma_rest(clause@, 1);
                        assert(exprs_view(clause@).skip(1) == rest(clause@, 1));
                    }
                    let chosen = match &clause[0] {
                        Expr::Symbol(name, data_pos) => {
                            if !is_word(name, "else") {
                                return Err(syntax(*data_pos, "case datums must be a list"));
                            }
                            if index != count - 1 {
                                return Err(syntax(*data_pos, "else clause must be last"));
                            }
                            proof {
                                assert(clause@[0]@ == SExpr::Symbol(name@, *data_pos));
                                assert(clause@[0]@ is Symbol && clause@[0]@->Symbol_0 == "else"@);
                            }
                            true
                        },
                        Expr::List(data, data_pos) => {
                            let m = any_datum_matches(&key, data);
                            proof {
                                assert(clause@[0]@ == SExpr::List(exprs_view(data@), *data_pos));
                            }
                            m
                        },
                        other => {
                            return Err(syntax(other.position(), "case datums must be a list"));
                        },
                    };
                    proof {
                        assert(args[index as int] == SExpr::List(exprs_view(clause@), *clause_pos));
                        assert(exprs_view(clause@)[0] == clause@[0]@);
                        if chosen {
                            assert(case_from(self@, args, index as int, key@, env, d as nat)
                                == seq_from(self@, rest(clause@, 1), 0, SValue::Void, env, d as nat));
                        }
                    }
                    if chosen {
                        let ghost before = self@;
                        let r = self.eval_sequence(clause, 1, env, d);
                        proof {
                            lemma_grows_trans(old(self)@, before, self@);
                        }
                        return r;
                    }
                },
                other => {
                    return Err(syntax(other.position(), "case clauses must be lists"));
                },
            }
            index = index + 1;
        }
        Ok(Value::Void)
    }

    fn eval_do(&mut self, items: &Vec<Expr>, start: usize, env: usize, pos: SourcePos, d: usize) -> (r: Result<Value, EvalError>)
        requires
            old(self).ok(),
            env < old(self)@.frames.len(),
            start <= items@.len(),
        ensures
            final(self).ok(),
            step_ok(old(self)@, final(self)@, r, eval_do(old(self)@, rest(items@, start as int), env, pos, d as nat)),
        decreases d, 15int, 0int,
    {
        proof {
            lemma_grows_refl(self@);
            lemma_rest(items@, start as int);
        }
        let ghost args = rest(items@, start as int);
        if items.len() - start == 0 {
            return Err(syntax(pos, "do requires bindings and a test clause"));
        }
        if items.len() - start == 1 {
            return Err(syntax(pos, "do requires a test clause"));
        }
        let bindings = match &items[start] {
            Expr::List(b, _) => b,
            other => {
                return Err(syntax(other.position(), "do bindings must be a list"));
            },
        };
        proof {
            assert(args[1] == items@[start + 1]@);
        }
        let (test_clause, test_pos) = match &items[start + 1] {
            Expr::List(t, p) => (t, *p),
            other => {
                return Err(syntax(other.position(), "do test clause must be a list"));
            },
        };
        proof {
            lemma_exprs_view(test_clause@);
        }
        if test_clause.len() == 0 {
            return Err(syntax(test_pos, "do test clause cannot be empty"));
        }
        let (names, inits, steps) = parse_do_bindings_exec(bindings)?;
        let ghost before = self@;
        proof {
            assert(rest(inits@, 0) =~= exprs_view(inits@));
        }
        let values = match self.eval_arguments(&inits, 0, env, d) {
            Ok(v) => v,
            Err(e) => {
                return Err(e);
            },
        };
        let ghost mid = self@;
        let frame = self.new_frame(env);
        let ghost mid2 = self@;
        proof {
            lemma_values_ok_grow(values_view(values@), mid.frames.len(), mid.strings.len(), self@.frames.len(), self@.strings.len());
            lemma_values_view(values@);
            lemma_grows_trans(before, mid, mid2);
        }
        self.define_all(frame, &names, &values);
        proof {
            lemma_grows_trans(before, mid2, self@);
            lemma_rest(test_clause@, 1);
            lemma_exprs_view(items@);
            lemma_rest(items@, start + 2);
            assert(args.skip(2) =~= rest(items@, start + 2));
            assert(exprs_view(test_clause@).skip(1) =~= rest(test_clause@, 1));
            assert(rest(steps@, 0) =~= exprs_view(steps@));
        }
        let r = self.run_do(frame, &names, &steps, test_clause, items, start + 2, d);
        proof {
            lemma_grows_trans(before, mid2, self@);
        }
        r
    }

    /// The loop of a `do` (see `do_loop`), from the test on.
    fn run_do(
        &mut self,
        frame: usize,
        names: &Vec<Vec<char>>,
        steps: &Vec<Expr>,
        test_clause: &Vec<Expr>,
        items: &Vec<Expr>,
        start: usize,
        d: usize,
    ) -> (r: Result<Value, EvalError>)
        requires
            old(self).ok(),
            frame < old(self)@.frames.len(),
            test_clause@.len() > 0,
            start <= items@.len(),
            names@.len() == steps@.len(),
        ensures
            final(self).ok(),
            step_ok(
                old(self)@,
                final(self)@,
                r,
                do_loop(
                    old(self)@,
                    frame,
                    names_view(names@),
                    exprs_view(steps@),
                    test_clause@[0]@,
                    rest(test_clause@, 1),
                    rest(items@, start as int),
                    d as nat,
                ),
            ),
        decreases d, 8int, 0int,
    {
        proof {
            lemma_grows_refl(self@);
            lemma_rest(steps@, 0);
            assert(rest(steps@, 0) =~= exprs_view(steps@)) by {
                lemma_exprs_view(steps@);
            }
        }
        if d == 0 {
            return Err(EvalError::step_limit_exceeded(self.max_steps));
        }
        let ghost round = self@;
        let t = match self.eval(&test_clause[0], frame, d) {
            Ok(t) => t,
            Err(e) => {
                return Err(e);
            },
        };
        let ghost after_test = self@;
        if is_truthy(&t) {
            let r = self.eval_sequence(test_clause, 1, frame, d);
            proof {
                lemma_grows_trans(round, after_test, self@);
            }
            return r;
        }
        match self.eval_sequence(items, start, frame, d) {
            Ok(_) => {},
            Err(e) => {
                proof {
                    lemma_grows_trans(round, after_test, self@);
                }
                return Err(e);
            },
        }
        let ghost after_body = self@;
        proof {
            lemma_grows_trans(round, after_test, after_body);
        }
        let next = match self.eval_arguments(steps, 0, frame, d) {
            Ok(v) => v,
            Err(e) => {
                proof {
                    lemma_grows_trans(round, after_body, self@);
                }
                return Err(e);
            },
        };
        let ghost after_steps = self@;
        proof {
            lemma_grows_trans(round, after_body, after_steps);
            lemma_values_view(next@);
        }
        self.define_all(frame, names, &next);
        let ghost after_define = self@;
        proof {
            lemma_grows_trans(round, after_steps, after_define);
        }
        let r = self.run_do(frame, names, steps, test_clause, items, start, d - 1);
        proof {
            lemma_grows_trans(round, after_define, self@);
        }
        r
    }

    fn eval_and(&mut self, items: &Vec<Expr>, start: usize, env: usize, d: usize) -> (r: Result<Value, EvalError>)
        requires
            old(self).ok(),
            env < old(self)@.frames.len(),
            start <= items@.len(),
        ensures
            final(self).ok(),
            step_ok(old(self)@, final(self)@, r, and_from(old(self)@, rest(items@, start as int), 0, SValue::Boolean(true), env, d as nat)),
        decreases d, 6int, 0int,
    {
        proof {
            lemma_grows_refl(self@);
            lemma_rest(items@, start as int);
        }
        let ghost args = rest(items@, start as int);
        let mut result = Value::Boolean(true);
        let mut i = start;
        while i < items.len()
            invariant
                start <= i <= items@.len(),
                args == rest(items@, start as int),
                args.len() == items@.len() - start,
                forall|k: int| 0 <= k < items@.len() - start ==> #[trigger] args[k] == items@[start + k]@,
                self.ok(),
                env < self@.frames.len(),
                grows(old(self)@, self@),
                value_ok(result@, self@.frames.len(), self@.strings.len()),
                and_from(self@, args, i - start, result@, env, d as nat) == and_from(old(self)@, args, 0, SValue::Boolean(true), env, d as nat),
            decreases items@.len() - i,
        {
            let ghost before = self@;
            let v = match self.eval(&items[i], env, d) {
                Ok(v) => v,
                Err(e) => {
                    proof {
                        lemma_grows_trans(old(self)@, before, self@);
                    }
                    return Err(e);
                },
            };
            proof {
                lemma_grows_trans(old(self)@, before, self@);
            }
            if !is_truthy(&v) {
                return Ok(v);
            }
            result = v;
            i = i + 1;
        }
        Ok(result)
    }

    fn eval_or(&mut self, items: &Vec<Expr>, start: usize, env: usize, d: usize) -> (r: Result<Value, EvalError>)
        requires
            old(self).ok(),
            env < old(self)@.frames.len(),
            start <= items@.len(),
        ensures
            final(self).ok(),
            step_ok(old(self)@, final(self)@, r, or_from(old(self)@, rest(items@, start as int), 0, SValue::Boolean(false), env, d as nat)),
        decreases d, 6int, 0int,
    {
        proof {
            lemma_grows_refl(self@);
            lemma_rest(items@, start as int);
        }
        let ghost args = rest(items@, start as int);
        let mut result = Value::Boolean(false);
        let mut i = start;
        while i < items.len()
            invariant
                start <= i <= items@.len(),
                args == rest(items@, start as int),
                args.len() == items@.len() - start,
                forall|k: int| 0 <= k < items@.len() - start ==> #[trigger] args[k] == items@[start + k]@,
                self.ok(),
                env < self@.frames.len(),
                grows(old(self)@, self@),
                value_ok(result@, self@.frames.len(), self@.strings.len()),
                or_from(self@, args, i - start, result@, env, d as nat) == or_from(old(self)@, args, 0, SValue::Boolean(false), env, d as nat),
            decreases items@.len() - i,
        {
            let ghost before = self@;
            let v = match self.eval(&items[i], env, d) {
                Ok(v) => v,
                Err(e) => {
                    proof {
                        lemma_grows_trans(old(self)@, before, self@);
                    }
                    return Err(e);
                },
            };
            proof {
                lemma_grows_trans(old(self)@, before, self@);
            }
            if is_truthy(&v) {
                return Ok(v);
            }
            result = v;
            i = i + 1;
        }
        Ok(result)
    }

    fn apply(&mut self, f: Value, pos: SourcePos, items: &Vec<Expr>, start: usize, env: usize, d: usize) -> (r: Result<Value, EvalError>)
        requires
            old(self).ok(),
            env < old(self)@.frames.len(),
            start <= items@.len(),
            value_ok(f@, old(self)@.frames.len(), old(self)@.strings.len()),
        ensures
            final(self).ok(),
            step_ok(old(self)@, final(self)@, r, apply(old(self)@, f@, pos, rest(items@, start as int), env, d as nat)),
        decreases d, 14int, 0int,
    {
        proof {
            lemma_grows_refl(self@);
        }
        match f {
            Value::Builtin(b) => self.apply_builtin(b, items, start, env, pos, d),
            Value::Closure(c) => self.apply_closure_exprs(&c, items, start, env, pos, d),
            _ => Err(EvalError::at(pos, &str_chars("attempted to call non-procedure"))),
        }
    }

    fn apply_builtin(&mut self, b: super::value::Builtin, items: &Vec<Expr>, start: usize, env: usize, pos: SourcePos, d: usize) -> (r: Result<Value, EvalError>)
        requires
            old(self).ok(),
            env < old(self)@.frames.len(),
            start <= items@.len(),
        ensures
            final(self).ok(),
            step_ok(old(self)@, final(self)@, r, apply_builtin(old(self)@, b, rest(items@, start as int), env, pos, d as nat)),
        decreases d, 13int, 0int,
    {
        let ghost before = self@;
        let args = self.eval_arguments_with_positions(items, start, env, d)?;
        let ghost mid = self@;
        let r = if is_higher_order_builtin(b) {
            self.higher_order(b, &args, pos, d)
        } else {
            self.call_builtin(b, &args, pos)
        };
        proof {
            lemma_grows_trans(before, mid, self@);
        }
        r
    }

    fn apply_closure_exprs(&mut self, c: &Closure, items: &Vec<Expr>, start: usize, env: usize, pos: SourcePos, d: usize) -> (r: Result<Value, EvalError>)
        requires
            old(self).ok(),
            env < old(self)@.frames.len(),
            start <= items@.len(),
            c.env < old(self)@.frames.len(),
        ensures
            final(self).ok(),
            step_ok(
                old(self)@,
                final(self)@,
                r,
                apply_closure_exprs(old(self)@, names_view(c.parameters@), exprs_view(c.body@), c.env, rest(items@, start as int), env, pos, d as nat),
            ),
        decreases d, 13int, 0int,
    {
        let ghost before = self@;
        let values = self.eval_arguments(items, start, env, d)?;
        let ghost mid = self@;
        let r = self.apply_closure_values(c, values, pos, d);
        proof {
            lemma_grows_trans(before, mid, self@);
        }
        r
    }

    fn apply_closure_values(&mut self, c: &Closure, values: Vec<Value>, pos: SourcePos, d: usize) -> (r: Result<Value, EvalError>)
        requires
            old(self).ok(),
            c.env < old(self)@.frames.len(),
            values_ok(values_view(values@), old(self)@.frames.len(), old(self)@.strings.len()),
        ensures
            final(self).ok(),
            step_ok(
                old(self)@,
                final(self)@,
                r,
                apply_closure_values(old(self)@, names_view(c.parameters@), exprs_view(c.body@), c.env, values_view(values@), pos, d as nat),
            ),
        decreases d, 11int, 0int,
    {
        proof {
            lemma_grows_refl(self@);
            lemma_values_view(values@);
        }
        let n = c.parameters.len();
        if n >= 2 && c.parameters[n - 2].len() == 0 {
            return self.apply_with_rest(c, values, pos, d);
        }
        proof {
            assert(!takes_rest(names_view(c.parameters@)));
        }
        if values.len() != c.parameters.len() {
            let mut msg = str_chars("expected ");
            let digits = usize_text(c.parameters.len());
            push_all(&mut msg, &digits);
            super::text::push_str(&mut msg, " arguments");
            proof {
                assert(msg@ =~= "expected "@ + super::text::nat_text(names_view(c.parameters@).len()) + " arguments"@);
            }
            return Err(EvalError::arity(pos, &str_chars("lambda"), &msg));
        }
        let ghost before = self@;
        let call_env = self.new_frame(c.env);
        let ghost mid = self@;
        proof {
            lemma_values_ok_grow(values_view(values@), before.frames.len(), before.strings.len(), mid.frames.len(), mid.strings.len());
        }
        self.define_all(call_env, &c.parameters, &values);
        let ghost mid2 = self@;
        proof {
            lemma_grows_trans(before, mid, mid2);
            assert(rest(c.body@, 0) =~= exprs_view(c.body@));
        }
        let r = self.eval_sequence(&c.body, 0, call_env, d);
        proof {
            lemma_grows_trans(before, mid2, self@);
        }
        r
    }

    /// A call of a procedure whose parameter list ends in a rest parameter.
    fn apply_with_rest(&mut self, c: &Closure, values: Vec<Value>, pos: SourcePos, d: usize) -> (r: Result<Value, EvalError>)
        requires
            old(self).ok(),
            c.env < old(self)@.frames.len(),
            values_ok(values_view(values@), old(self)@.frames.len(), old(self)@.strings.len()),
            takes_rest(names_view(c.parameters@)),
        ensures
            final(self).ok(),
            step_ok(
                old(self)@,
                final(self)@,
                r,
                apply_closure_values(old(self)@, names_view(c.parameters@), exprs_view(c.body@), c.env, values_view(values@), pos, d as nat),
            ),
        decreases d, 10int, 0int,
    {
        let ghost params = names_view(c.parameters@);
        let ghost vv = values_view(values@);
        proof {
            lemma_grows_refl(self@);
            lemma_values_view(values@);
        }
        let required = c.parameters.len() - 2;
        if values.len() < required {
            let mut msg = str_chars("expected at least ");
            let digits = usize_text(required);
            push_all(&mut msg, &digits);
            super::text::push_str(&mut msg, " arguments");
            proof {
                assert(msg@ =~= "expected at least "@ + super::text::nat_text((params.len() - 2) as nat) + " arguments"@);
            }
            return Err(EvalError::arity(pos, &str_chars("lambda"), &msg));
        }
        let mut names: Vec<Vec<char>> = Vec::new();
        let mut bound: Vec<Value> = Vec::new();
        let mut i: usize = 0;
        while i < required
            invariant
                required == c.parameters@.len() - 2,
                required <= values@.len(),
                i <= required,
                params == names_view(c.parameters@),
                params.len() == c.parameters@.len(),
                forall|j: int| 0 <= j < c.parameters@.len() ==> #[trigger] params[j] == c.parameters@[j]@,
                vv == values_view(values@),
                vv.len() == values@.len(),
                forall|j: int| 0 <= j < values@.len() ==> #[trigger] vv[j] == values@[j]@,
                names_view(names@) == params.take(i as int),
                values_view(bound@) == vv.take(i as int),
                names@.len() == i,
                bound@.len() == i,
            decreases required - i,
        {
            let ghost nb = names@;
            let ghost bb = bound@;
            names.push(c.parameters[i].clone());
            let v = values[i].copy();
            proof {
                lemma_values_view_push(bb, v);
            }
            bound.push(v);
            proof {
                assert(names_view(names@) =~= names_view(nb).push(params[i as int]));
                assert(params.take(i + 1) =~= params.take(i as int).push(params[i as int]));
                assert(vv.take(i + 1) =~= vv.take(i as int).push(vv[i as int]));
            }
            i = i + 1;
        }
        let ghost nb = names@;
        let ghost bb = bound@;
        names.push(c.parameters[required + 1].clone());
        let rest_values = copy_values_from(&values, required);
        proof {
            lemma_values_view(values@.skip(required as int));
            assert(values_view(values@.skip(required as int)) =~= vv.skip(required as int));
            lemma_values_view_push(bb, Value::List(rest_values));
        }
        bound.push(Value::List(rest_values));
        proof {
            assert(names_view(names@) =~= bound_names(params));
            assert(values_view(bound@) =~= bound_values(params, vv));
            assert forall|k: int| 0 <= k < vv.skip(required as int).len() implies value_ok(
                #[trigger] vv.skip(required as int)[k], self@.frames.len(), self@.strings.len()) by {
                assert(value_ok(vv[k + required], self@.frames.len(), self@.strings.len()));
            }
            lemma_value_ok_list(vv.skip(required as int), self@.frames.len(), self@.strings.len());
        }
        let ghost before = self@;
        let call_env = self.new_frame(c.env);
        let ghost mid = self@;
        proof {
            lemma_values_ok_grow(values_view(bound@), before.frames.len(), before.strings.len(), mid.frames.len(), mid.strings.len());
            lemma_values_view(bound@);
        }
        self.define_all(call_env, &names, &bound);
        let ghost mid2 = self@;
        proof {
            lemma_grows_trans(before, mid, mid2);
            assert(rest(c.body@, 0) =~= exprs_view(c.body@));
        }
        let r = self.eval_sequence(&c.body, 0, call_env, d);
        proof {
            lemma_grows_trans(before, mid2, self@);
        }
        r
    }

    fn eval_sequence(&mut self, exprs: &Vec<Expr>, start: usize, env: usize, d: usize) -> (r: Result<Value, EvalError>)
        requires
            old(self).ok(),
            env < old(self)@.frames.len(),
            start <= exprs@.len(),
        ensures
            final(self).ok(),
            step_ok(old(self)@, final(self)@, r, seq_from(old(self)@, rest(exprs@, start as int), 0, SValue::Void, env, d as nat)),
        decreases d, 5int, 0int,
    {
        proof {
            lemma_grows_refl(self@);
            lemma_rest(exprs@, start as int);
        }
        let ghost es = rest(exprs@, start as int);
        let mut last = Value::Void;
        let mut i = start;
        while i < exprs.len()
            invariant
                start <= i <= exprs@.len(),
                es == rest(exprs@, start as int),
                es.len() == exprs@.len() - start,
                forall|k: int| 0 <= k < exprs@.len() - start ==> #[trigger] es[k] == exprs@[start + k]@,
                self.ok(),
                env < self@.frames.len(),
                grows(old(self)@, self@),
                value_ok(last@, self@.frames.len(), self@.strings.len()),
                seq_from(self@, es, i - start, last@, env, d as nat) == seq_from(old(self)@, es, 0, SValue::Void, env, d as nat),
            decreases exprs@.len() - i,
        {
            let ghost before = self@;
            let v = match self.eval(&exprs[i], env, d) {
                Ok(v) => v,
                Err(e) => {
                    proof {
                        lemma_grows_trans(old(self)@, before, self@);
                    }
                    return Err(e);
                },
            };
            proof {
                lemma_grows_trans(old(self)@, before, self@);
            }
            last = v;
            i = i + 1;
        }
        Ok(last)
    }

    fn eval_arguments(&mut self, exprs: &Vec<Expr>, start: usize, env: usize, d: usize) -> (r: Result<Vec<Value>, EvalError>)
        requires
            old(self).ok(),
            env < old(self)@.frames.len(),
            start <= exprs@.len(),
        ensures
            final(self).ok(),
            values_step_ok(old(self)@, final(self)@, r, values_from(old(self)@, rest(exprs@, start as int), 0, Seq::empty(), env, d as nat)),
            r matches Ok(vs) ==> vs@.len() == exprs@.len() - start,
        decreases d, 5int, 0int,
    {
        proof {
            lemma_grows_refl(self@);
            lemma_rest(exprs@, start as int);
        }
        let ghost es = rest(exprs@, start as int);
        let mut values: Vec<Value> = Vec::new();
        let mut i = start;
        while i < exprs.len()
            invariant
                start <= i <= exprs@.len(),
                es == rest(exprs@, start as int),
                es.len() == exprs@.len() - start,
                forall|k: int| 0 <= k < exprs@.len() - start ==> #[trigger] es[k] == exprs@[start + k]@,
                self.ok(),
                env < self@.frames.len(),
                grows(old(self)@, self@),
                values@.len() == i - start,
                values_ok(values_view(values@), self@.frames.len(), self@.strings.len()),
                values_from(self@, es, i - start, values_view(values@), env, d as nat) == values_from(old(self)@, es, 0, Seq::empty(), env, d as nat),
            decreases exprs@.len() - i,
        {
            let ghost before = self@;
            let v = match self.eval(&exprs[i], env, d) {
                Ok(v) => v,
                Err(e) => {
                    proof {
                        lemma_grows_trans(old(self)@, before, self@);
                    }
                    return Err(e);
                },
            };
            proof {
                lemma_grows_trans(old(self)@, before, self@);
                lemma_values_view_push(values@, v);
                lemma_values_ok_grow(values_view(values@), before.frames.len(), before.strings.len(), self@.frames.len(), self@.strings.len());
                lemma_values_view(values@);
            }
            values.push(v);
            proof {
                lemma_values_view(values@);
                assert forall|j: int| 0 <= j < values_view(values@).len() implies value_ok(
                    #[trigger] values_view(values@)[j], self@.frames.len(), self@.strings.len()) by {
                    if j < values@.len() - 1 {
                        assert(values_view(values@)[j] == values_view(values@.drop_last())[j]);
                    }
                }
            }
            i = i + 1;
        }
        Ok(values)
    }

    fn eval_arguments_with_positions(&mut self, exprs: &Vec<Expr>, start: usize, env: usize, d: usize) -> (r: Result<Vec<Arg>, EvalError>)
        requires
            old(self).ok(),
            env < old(self)@.frames.len(),
            start <= exprs@.len(),
        ensures
            final(self).ok(),
            args_step_ok(old(self)@, final(self)@, r, args_from(old(self)@, rest(exprs@, start as int), 0, Seq::empty(), env, d as nat)),
        decreases d, 5int, 0int,
    {
        proof {
            lemma_grows_refl(self@);
            lemma_rest(exprs@, start as int);
            lemma_args_view(Seq::<Arg>::empty());
        }
        let ghost es = rest(exprs@, start as int);
        let mut arguments: Vec<Arg> = Vec::new();
        proof {
            assert(args_view(arguments@) =~= Seq::<SArg>::empty());
        }
        let mut i = start;
        while i < exprs.len()
            invariant
                start <= i <= exprs@.len(),
                es == rest(exprs@, start as int),
                es.len() == exprs@.len() - start,
                forall|k: int| 0 <= k < exprs@.len() - start ==> #[trigger] es[k] == exprs@[start + k]@,
                self.ok(),
                env < self@.frames.len(),
                grows(old(self)@, self@),
                args_ok(args_view(arguments@), self@),
                args_from(self@, es, i - start, args_view(arguments@), env, d as nat) == args_from(old(self)@, es, 0, Seq::empty(), env, d as nat),
            decreases exprs@.len() - i,
        {
            let ghost before = self@;
            let v = match self.eval(&exprs[i], env, d) {
                Ok(v) => v,
                Err(e) => {
                    proof {
                        lemma_grows_trans(old(self)@, before, self@);
                    }
                    return Err(e);
                },
            };
            proof {
                lemma_grows_trans(old(self)@, before, self@);
            }
            let ghost old_args = arguments@;
            let p = exprs[i].position();
            arguments.push(Arg { value: v, pos: p });
            proof {
                lemma_args_view(arguments@);
                lemma_args_view(old_args);
                assert(args_view(arguments@) =~= args_view(old_args).push(SArg { value: arguments@.last().value@, pos: p }));
                assert forall|j: int| 0 <= j < args_view(arguments@).len() implies value_ok(
                    #[trigger] args_view(arguments@)[j].value, self@.frames.len(), self@.strings.len()) by {
                    if j < old_args.len() {
                        assert(value_ok(args_view(old_args)[j].value, before.frames.len(), before.strings.len()));
                        lemma_value_ok_grow(args_view(old_args)[j].value, before.frames.len(), before.strings.len(), self@.frames.len(), self@.strings.len());
                    }
                }
            }
            i = i + 1;
        }
        Ok(arguments)
    }
}


fn is_higher_order_builtin(b: Builtin) -> (r: bool)
    ensures
        r == is_higher_order(b),
{
    match b {
        Builtin::Apply => true,
        Builtin::MapEach => true,
        Builtin::ForEach => true,
        _ => false,
    }
}

/// The lists of `map` and `for-each`, as mathematical sequences.
pub open spec fn lists_view(lists: Seq<Vec<Value>>) -> Seq<Seq<SValue>> {
    Seq::new(lists.len(), |k: int| values_view(lists[k]@))
}

impl Interpreter {
    /// Applies a procedure to argument values that are already evaluated.
    fn apply_values(&mut self, f: &Value, values: Vec<Value>, pos: SourcePos, d: usize) -> (r: Result<Value, EvalError>)
        requires
            old(self).ok(),
            value_ok(f@, old(self)@.frames.len(), old(self)@.strings.len()),
            values_ok(values_view(values@), old(self)@.frames.len(), old(self)@.strings.len()),
        ensures
            final(self).ok(),
            step_ok(old(self)@, final(self)@, r, apply_values(old(self)@, f@, values_view(values@), pos, d as nat)),
        decreases d, 3int, 0int,
    {
        proof {
            lemma_grows_refl(self@);
            lemma_values_view(values@);
        }
        if d == 0 {
            return Err(EvalError::step_limit_exceeded(self.max_steps));
        }
        match f {
            Value::Builtin(b) => {
                let ghost vv = values_view(values@);
                let mut args: Vec<Arg> = Vec::new();
                let mut i: usize = 0;
                while i < values.len()
                    invariant
                        i <= values@.len(),
                        vv == values_view(values@),
                        vv.len() == values@.len(),
                        forall|j: int| 0 <= j < values@.len() ==> #[trigger] vv[j] == values@[j]@,
                        args_view(args@).len() == i,
                        forall|j: int| 0 <= j < i ==> #[trigger] args_view(args@)[j] == (SArg { value: vv[j], pos: pos }),
                    decreases values@.len() - i,
                {
                    let a = Arg { value: values[i].copy(), pos };
                    let ghost old_args = args@;
                    args.push(a);
                    proof {
                        lemma_args_view(old_args);
                        lemma_args_view(args@);
                        assert(args@ == old_args.push(a));
                        assert forall|j: int| 0 <= j < i + 1 implies #[trigger] args_view(args@)[j] == (SArg { value: vv[j], pos: pos }) by {
                            if j < i {
                                assert(args@[j] == old_args[j]);
                                assert(args_view(old_args)[j] == (SArg { value: vv[j], pos: pos }));
                            } else {
                                assert(args@[j] == a);
                            }
                        }
                    }
                    i = i + 1;
                }
                proof {
                    assert(args_view(args@) =~= args_at(vv, pos));
                    assert forall|j: int| 0 <= j < args_view(args@).len() implies value_ok(
                        #[trigger] args_view(args@)[j].value, self@.frames.len(), self@.strings.len()) by {
                        assert(args_view(args@)[j].value == vv[j]);
                    }
                }
                if is_higher_order_builtin(*b) {
                    self.higher_order(*b, &args, pos, d - 1)
                } else {
                    self.call_builtin(*b, &args, pos)
                }
            },
            Value::Closure(c) => self.apply_closure_values(c, values, pos, d - 1),
            _ => Err(EvalError::at(pos, &str_chars("attempted to call non-procedure"))),
        }
    }

    /// The lists among the arguments after the first, checked as `map` and
    /// `for-each` check them.
    fn list_arguments(&self, args: &Vec<Arg>, name: &str) -> (r: Result<Vec<Vec<Value>>, EvalError>)
        requires
            args_ok(args_view(args@), self@),
            args@.len() >= 2,
        ensures
            r matches Ok(l) ==> {
                &&& lists_of(args_view(args@), 1, Seq::empty(), name@) == Ok::<Seq<Seq<SValue>>, ErrorView>(lists_view(l@))
                &&& l@.len() == args@.len() - 1
                &&& forall|k: int| 0 <= k < l@.len() ==> #[trigger] l@[k]@.len() == l@[0]@.len()
                &&& forall|k: int| 0 <= k < l@.len() ==> values_ok(#[trigger] lists_view(l@)[k], self@.frames.len(), self@.strings.len())
            },
            r matches Err(e) ==> lists_of(args_view(args@), 1, Seq::empty(), name@) == Err::<Seq<Seq<SValue>>, ErrorView>(e@),
    {
        proof {
            lemma_args_view(args@);
        }
        let ghost av = args_view(args@);
        let mut lists: Vec<Vec<Value>> = Vec::new();
        let mut i: usize = 1;
        proof {
            assert(lists_view(lists@) =~= Seq::<Seq<SValue>>::empty());
        }
        while i < args.len()
            invariant
                1 <= i <= args@.len(),
                av == args_view(args@),
                av.len() == args@.len(),
                forall|j: int| 0 <= j < args@.len() ==> #[trigger] av[j] == args@[j]@,
                args_ok(av, self@),
                lists@.len() == i - 1,
                lists_of(av, 1, Seq::empty(), name@) == lists_of(av, i as int, lists_view(lists@), name@),
                forall|k: int| 0 <= k < lists@.len() ==> values_ok(#[trigger] lists_view(lists@)[k], self@.frames.len(), self@.strings.len()),
                forall|k: int| 0 <= k < lists@.len() ==> #[trigger] lists@[k]@.len() == lists@[0]@.len(),
            decreases args@.len() - i,
        {
            proof {
                assert(value_ok(av[i as int].value, self@.frames.len(), self@.strings.len()));
                assert(av[i as int] == args@[i as int]@);
            }
            match &args[i].value {
                Value::List(items) => {
                    proof {
                        lemma_values_view(items@);
                    }
                    if lists.len() > 0 && items.len() != lists[0].len() {
                        proof {
                            lemma_values_view(lists@[0]@);
                        }
                        return Err(type_mismatch(args[i].pos, name, " expects lists of the same length"));
                    }
                    let copy = copy_values_from(items, 0);
                    proof {
                        assert(items@.skip(0) =~= items@);
                        lemma_values_view(copy@);
                        assert(lists_view(lists@.push(copy)) =~= lists_view(lists@).push(values_view(items@)));
                        if lists.len() > 0 {
                            lemma_values_view(lists@[0]@);
                        }
                        assert forall|k: int| 0 <= k < values_view(items@).len() implies value_ok(
                            #[trigger] values_view(items@)[k], self@.frames.len(), self@.strings.len()) by {
                            super::value::lemma_value_ok_item(values_view(items@), self@.frames.len(), self@.strings.len(), k);
                        }
                    }
                    lists.push(copy);
                },
                _ => {
                    proof {
                        assert(!(av[i as int].value is List));
                    }
                    return Err(type_mismatch(args[i].pos, name, " expects list arguments"));
                },
            }
            i = i + 1;
        }
        Ok(lists)
    }

    /// Applies the primitive procedure called `op` to evaluated arguments.
    pub fn eval_builtin(&mut self, op: &str, args: &Vec<Arg>, pos: SourcePos) -> (r: Result<Value, EvalError>)
        requires
            old(self).ok(),
            args_ok(args_view(args@), old(self)@),
        ensures
            final(self).ok(),
            step_ok(old(self)@, final(self)@, r, primitive_call(old(self)@, op@, args_view(args@), pos)),
    {
        proof {
            lemma_grows_refl(self@);
        }
        let name = str_chars(op);
        match Builtin::named(&name) {
            Some(b) => {
                proof {
                    lemma_builtin_name_injective(b, b);
                }
                if is_higher_order_builtin(b) {
                    let limit = self.max_steps;
                    self.higher_order(b, args, pos, limit)
                } else {
                    self.call_builtin(b, args, pos)
                }
            },
            None => {
                proof {
                    lemma_builtin_name_injective(builtin_named(op@), builtin_named(op@));
                }
                let mut msg = str_chars("unbound variable: ");
                push_all(&mut msg, &name);
                Err(EvalError::at(pos, &msg))
            },
        }
    }

    /// `apply`, `map` and `for-each` on evaluated arguments.
    fn higher_order(&mut self, b: Builtin, args: &Vec<Arg>, pos: SourcePos, d: usize) -> (r: Result<Value, EvalError>)
        requires
            old(self).ok(),
            args_ok(args_view(args@), old(self)@),
        ensures
            final(self).ok(),
            step_ok(old(self)@, final(self)@, r, higher_order(old(self)@, b, args_view(args@), pos, d as nat)),
        decreases d, 6int, 0int,
    {
        proof {
            lemma_grows_refl(self@);
            lemma_args_view(args@);
        }
        let ghost av = args_view(args@);
        let name = match b {
            Builtin::Apply => "apply",
            Builtin::MapEach => "map",
            _ => "for-each",
        };
        proof {
            assert(name@ == (if b == Builtin::Apply {
                "apply"@
            } else if b == Builtin::MapEach {
                "map"@
            } else {
                "for-each"@
            }));
        }
        if args.len() < 2 {
            return Err(arity_err(pos, name, "expected at least 2 arguments"));
        }
        proof {
            assert(value_ok(av[0].value, self@.frames.len(), self@.strings.len()));
        }
        let f = args[0].value.copy();
        let last = args.len() - 1;
        if let Builtin::Apply = b {
            proof {
                assert(value_ok(av[last as int].value, self@.frames.len(), self@.strings.len()));
                assert(av[last as int] == args@[last as int]@);
            }
            match &args[last].value {
                Value::List(tail) => {
                    let values = spread_arguments(args, tail);
                    proof {
                        lemma_values_view(tail@);
                        let all = values_view(values@);
                        let front = Seq::new((av.len() - 2) as nat, |i: int| av[i + 1].value);
                        assert forall|k: int| 0 <= k < all.len() implies value_ok(#[trigger] all[k], self@.frames.len(), self@.strings.len()) by {
                            if k < front.len() {
                                assert(all[k] == front[k]);
                                assert(value_ok(av[k + 1].value, self@.frames.len(), self@.strings.len()));
                            } else {
                                assert(all[k] == values_view(tail@)[k - front.len()]);
                                super::value::lemma_value_ok_item(values_view(tail@), self@.frames.len(), self@.strings.len(), k - front.len());
                            }
                        }
                    }
                    self.apply_values(&f, values, pos, d)
                },
                _ => {
                    proof {
                        assert(!(av[last as int].value is List));
                    }
                    Err(type_mismatch(args[last].pos, "apply", " expects a list as its last argument"))
                },
            }
        } else {
            let lists = match self.list_arguments(args, name) {
                Ok(l) => l,
                Err(e) => {
                    return Err(e);
                },
            };
            let collect = match b {
                Builtin::MapEach => true,
                _ => false,
            };
            let ghost lv = lists_view(lists@);
            let n = lists[0].len();
            proof {
                lemma_values_view(lists@[0]@);
                assert(lv[0] == values_view(lists@[0]@));
            }
            let mut acc: Vec<Value> = Vec::new();
            let mut k: usize = 0;
            proof {
                assert(values_view(acc@) =~= Seq::<SValue>::empty());
            }
            while k < n
                invariant
                    self.ok(),
                    grows(old(self)@, self@),
                    av == args_view(args@),
                    lv == lists_view(lists@),
                    lv.len() == lists@.len(),
                    lists@.len() >= 1,
                    n == lv[0].len(),
                    k <= n,
                    forall|m: int| 0 <= m < lists@.len() ==> #[trigger] lists@[m]@.len() == n,
                    forall|m: int| 0 <= m < lists@.len() ==> values_ok(#[trigger] lv[m], self@.frames.len(), self@.strings.len()),
                    value_ok(f@, self@.frames.len(), self@.strings.len()),
                    values_ok(values_view(acc@), self@.frames.len(), self@.strings.len()),
                    higher_order(old(self)@, b, av, pos, d as nat) == map_from(self@, f@, lv, k as int, values_view(acc@), collect, pos, d as nat),
                decreases n - k,
            {
                let col = column_at(&lists, k);
                proof {
                    assert forall|q: int| 0 <= q < values_view(col@).len() implies value_ok(
                        #[trigger] values_view(col@)[q], self@.frames.len(), self@.strings.len()) by {
                        assert(values_ok(lv[q], self@.frames.len(), self@.strings.len()));
                        lemma_values_view(lists@[q]@);
                        assert(value_ok(lv[q][k as int], self@.frames.len(), self@.strings.len()));
                    }
                }
                let ghost prev = self@;
                let ghost before_acc = values_view(acc@);
                let v = match self.apply_values(&f, col, pos, d) {
                    Ok(v) => v,
                    Err(e) => {
                        proof {
                            lemma_grows_trans(old(self)@, prev, self@);
                            assert(map_from(prev, f@, lv, k as int, before_acc, collect, pos, d as nat)
                                == (self@, Err::<SValue, ErrorView>(e@)));
                            assert(higher_order(old(self)@, b, av, pos, d as nat) == (self@, Err::<SValue, ErrorView>(e@)));
                            assert(value_result(Err::<Value, EvalError>(e)) == Err::<SValue, ErrorView>(e@));
                        }
                        return Err(e);
                    },
                };
                proof {
                    lemma_grows_trans(old(self)@, prev, self@);
                    lemma_value_ok_grow(f@, prev.frames.len(), prev.strings.len(), self@.frames.len(), self@.strings.len());
                    lemma_values_ok_grow(values_view(acc@), prev.frames.len(), prev.strings.len(), self@.frames.len(), self@.strings.len());
                    assert forall|q: int| 0 <= q < lists@.len() implies values_ok(#[trigger] lv[q], self@.frames.len(), self@.strings.len()) by {
                        lemma_values_ok_grow(lv[q], prev.frames.len(), prev.strings.len(), self@.frames.len(), self@.strings.len());
                    }
                    lemma_values_view_push(acc@, v);
                }
                acc.push(v);
                k = k + 1;
            }
            proof {
                lemma_value_ok_list(values_view(acc@), self@.frames.len(), self@.strings.len());
            }
            if collect {
                Ok(Value::List(acc))
            } else {
                Ok(Value::Boolean(false))
            }
        }
    }
}

/// Whether `datum` stands for a value `eqv?` to `key` (see `datum_matches`).
fn datum_matches_value(key: &Value, datum: &Expr) -> (r: bool)
    ensures
        r == datum_matches(key@, datum@),
{
    match datum {
        Expr::Integer(n, _) => match key {
            Value::Integer(k) => *k == *n,
            _ => false,
        },
        Expr::Boolean(b, _) => match key {
            Value::Boolean(k) => *k == *b,
            _ => false,
        },
        Expr::Character(c, _) => match key {
            Value::Character(k) => *k == *c,
            _ => false,
        },
        Expr::Symbol(name, _) => match key {
            Value::Symbol(k) => chars_eq(k, name),
            _ => false,
        },
        Expr::List(items, _) => {
            proof {
                lemma_exprs_view(items@);
            }
            if items.len() != 0 {
                return false;
            }
            match key {
                Value::List(vs) => {
                    proof {
                        lemma_values_view(vs@);
                    }
                    vs.len() == 0
                },
                _ => false,
            }
        },
        Expr::String(..) => false,
    }
}

/// Whether any of `data` stands for a value `eqv?` to `key`.
fn any_datum_matches(key: &Value, data: &Vec<Expr>) -> (r: bool)
    ensures
        r == matches_any(key@, exprs_view(data@)),
{
    proof {
        lemma_exprs_view(data@);
    }
    let mut i: usize = 0;
    while i < data.len()
        invariant
            i <= data@.len(),
            exprs_view(data@).len() == data@.len(),
            forall|j: int| 0 <= j < data@.len() ==> #[trigger] exprs_view(data@)[j] == data@[j]@,
            forall|j: int| 0 <= j < i ==> !#[trigger] datum_matches(key@, exprs_view(data@)[j]),
        decreases data@.len() - i,
    {
        if datum_matches_value(key, &data[i]) {
            proof {
                assert(datum_matches(key@, exprs_view(data@)[i as int]));
            }
            return true;
        }
        i = i + 1;
    }
    false
}

/// The arguments of `apply` between the procedure and the last, followed by
/// the elements of the last.
fn spread_arguments(args: &Vec<Arg>, tail: &Vec<Value>) -> (values: Vec<Value>)
    requires
        args@.len() >= 2,
    ensures
        values_view(values@) == Seq::new((args@.len() - 2) as nat, |i: int| args_view(args@)[i + 1].value) + values_view(tail@),
{
    proof {
        lemma_args_view(args@);
        lemma_values_view(tail@);
    }
    let ghost av = args_view(args@);
    let ghost front = Seq::new((args@.len() - 2) as nat, |i: int| av[i + 1].value);
    let last = args.len() - 1;
    let mut values: Vec<Value> = Vec::new();
    let mut i: usize = 1;
    while i < last
        invariant
            1 <= i <= last,
            last == args@.len() - 1,
            av == args_view(args@),
            forall|j: int| 0 <= j < args@.len() ==> #[trigger] av[j] == args@[j]@,
            values_view(values@) == front.take(i - 1),
            front == Seq::new((args@.len() - 2) as nat, |i: int| av[i + 1].value),
        decreases last - i,
    {
        let v = args[i].value.copy();
        proof {
            lemma_values_view_push(values@, v);
            assert(front.take(i as int) =~= front.take(i - 1).push(v@));
        }
        values.push(v);
        i = i + 1;
    }
    let mut j: usize = 0;
    proof {
        assert(front.take(last - 1) =~= front);
        assert(values_view(tail@).take(0) =~= Seq::<SValue>::empty());
    }
    while j < tail.len()
        invariant
            j <= tail@.len(),
            values_view(values@) == front + values_view(tail@).take(j as int),
            values_view(tail@).len() == tail@.len(),
            forall|k: int| 0 <= k < tail@.len() ==> #[trigger] values_view(tail@)[k] == tail@[k]@,
        decreases tail@.len() - j,
    {
        let v = tail[j].copy();
        proof {
            lemma_values_view_push(values@, v);
            assert(values_view(tail@).take(j + 1) =~= values_view(tail@).take(j as int).push(v@));
            assert(front + values_view(tail@).take(j + 1) =~= (front + values_view(tail@).take(j as int)).push(v@));
        }
        values.push(v);
        j = j + 1;
    }
    proof {
        assert(values_view(tail@).take(tail@.len() as int) =~= values_view(tail@));
    }
    values
}

/// The `k`-th element of each list.
fn column_at(lists: &Vec<Vec<Value>>, k: usize) -> (col: Vec<Value>)
    requires
        forall|m: int| 0 <= m < lists@.len() ==> k < #[trigger] lists@[m]@.len(),
    ensures
        values_view(col@) == column(lists_view(lists@), k as int),
{
    let ghost lv = lists_view(lists@);
    let mut col: Vec<Value> = Vec::new();
    let mut m: usize = 0;
    while m < lists.len()
        invariant
            m <= lists@.len(),
            lv == lists_view(lists@),
            forall|q: int| 0 <= q < lists@.len() ==> k < #[trigger] lists@[q]@.len(),
            values_view(col@) == column(lv, k as int).take(m as int),
        decreases lists@.len() - m,
    {
        proof {
            lemma_values_view(lists@[m as int]@);
        }
        let v = lists[m][k].copy();
        proof {
            lemma_values_view_push(col@, v);
            assert(column(lv, k as int).take(m + 1) =~= column(lv, k as int).take(m as int).push(v@));
        }
        col.push(v);
        m = m + 1;
    }
    proof {
        assert(column(lv, k as int).take(lists@.len() as int) =~= column(lv, k as int));
    }
    col
}

/// The state before a program runs: the global frame with every primitive
/// procedure bound under its name, no strings and no output.
pub open spec fn initial_state(limit: usize) -> SState {
    define_all(
        SState {
            frames: seq![SFrame { parent: None, names: Seq::empty(), values: Seq::empty() }],
            strings: Seq::empty(),
            output: Seq::empty(),
            limit,
        },
        0,
        all_builtins().map_values(|b: Builtin| builtin_name(b)),
        all_builtins().map_values(|b: Builtin| SValue::Builtin(b)),
    )
}

/// In a fresh interpreter every primitive procedure is bound, in the global
/// frame, under its name.
pub proof fn law_primitives_bound(limit: usize, b: Builtin)
    ensures
        lookup(initial_state(limit).frames, 0, builtin_name(b)) == Some(SValue::Builtin(b)),
{
    let names = all_builtins().map_values(|x: Builtin| builtin_name(x));
    let values = all_builtins().map_values(|x: Builtin| SValue::Builtin(x));
    let base = SState {
        frames: seq![SFrame { parent: None, names: Seq::empty(), values: Seq::empty() }],
        strings: Seq::empty(),
        output: Seq::empty(),
        limit,
    };
    let k = builtin_index(b);
    lemma_all_builtins_index(b);
    assert forall|j: int| 0 <= j < names.len() && j != k implies names[j] != names[k] by {
        lemma_builtin_name_injective(all_builtins()[j], b);
    }
    lemma_define_all_get(base, 0, names, values, k);
    assert(names =~= all_builtins().map_values(|b: Builtin| builtin_name(b)));
    assert(values =~= all_builtins().map_values(|b: Builtin| SValue::Builtin(b)));
    assert(initial_state(limit) == define_all(base, 0, names, values));
}

impl Interpreter {
    /// An interpreter whose global frame binds the primitive procedures.
    pub fn new(max_steps: usize) -> (r: Interpreter)
        ensures
            r.ok(),
            r@ == initial_state(max_steps),
            r.max_steps == max_steps,
    {
        let mut frames: Vec<Frame> = Vec::new();
        frames.push(Frame { parent: None, names: Vec::new(), values: Vec::new() });
        let mut interpreter = Interpreter { frames, strings: Vec::new(), output: Vec::new(), max_steps };
        let ghost base = SState {
            frames: seq![SFrame { parent: None, names: Seq::empty(), values: Seq::empty() }],
            strings: Seq::empty(),
            output: Seq::empty(),
            limit: max_steps,
        };
        let ghost names = all_builtins().map_values(|b: Builtin| builtin_name(b));
        let ghost values = all_builtins().map_values(|b: Builtin| SValue::Builtin(b));
        proof {
            assert(names_view(Seq::<Vec<char>>::empty()) =~= Seq::<Seq<char>>::empty());
            assert(interpreter@.frames =~= base.frames);
            assert(interpreter@.strings =~= base.strings);
            assert(interpreter@ == base);
            assert(names.take(0) =~= Seq::<Seq<char>>::empty());
            assert(values.take(0) =~= Seq::<SValue>::empty());
            assert(state_ok(interpreter@)) by {
                assert(super::env::frame_ok(interpreter@.frames[0], 0, 1, 0));
            }
        }
        let builtins = Builtin::all();
        let mut i: usize = 0;
        while i < builtins.len()
            invariant
                i <= builtins@.len(),
                builtins@ == all_builtins(),
                names == all_builtins().map_values(|b: Builtin| builtin_name(b)),
                values == all_builtins().map_values(|b: Builtin| SValue::Builtin(b)),
                interpreter.ok(),
                interpreter.max_steps == max_steps,
                interpreter@.frames.len() == 1,
                interpreter@ == define_all(base, 0, names.take(i as int), values.take(i as int)),
            decreases builtins@.len() - i,
        {
            let b = builtins[i];
            let name = str_chars(b.name());
            interpreter.define(0, name, Value::Builtin(b));
            proof {
                assert(names.take(i + 1).drop_last() =~= names.take(i as int));
                assert(values.take(i + 1).drop_last() =~= values.take(i as int));
                assert(names.take(i + 1).last() == builtin_name(b));
                assert(values.take(i + 1).last() == SValue::Builtin(b));
            }
            i = i + 1;
        }
        proof {
            assert(names.take(i as int) =~= names);
            assert(values.take(i as int) =~= values);
        }
        interpreter
    }

    /// Evaluates the expressions of a program in the global frame, in order,
    /// each with the full budget of nested eval dispatches; the value of the last.
    pub fn eval_program(&mut self, program: &Vec<Expr>) -> (r: Result<Value, EvalError>)
        requires
            old(self).ok(),
        ensures
            final(self).ok(),
            step_ok(old(self)@, final(self)@, r, eval_program(old(self)@, exprs_view(program@), old(self).max_steps as nat)),
    {
        proof {
            lemma_grows_refl(self@);
            lemma_exprs_view(program@);
        }
        if program.len() == 0 {
            return Err(syntax(SourcePos::new(1, 1), "empty program"));
        }
        proof {
            assert(rest(program@, 0) =~= exprs_view(program@));
        }
        let limit = self.max_steps;
        self.eval_sequence(program, 0, 0, limit)
    }

    /// The text written so far by `display`, `write` and `newline`.
    pub fn captured_output(&self) -> (r: String)
        ensures
            r@ == self@.output,
    {
        chars_to_string(&self.output)
    }

    /// The written form of a value, with the strings as they now are.
    pub fn render(&self, v: &Value) -> (r: String)
        requires
            self.ok(),
            value_ok(v@, self@.frames.len(), self@.strings.len()),
        ensures
            r@ == render(v@, self@.strings, false),
    {
        let mut out: Vec<char> = Vec::new();
        let ghost nf = self@.frames.len();
        v.render_into(&self.strings, false, &mut out, Ghost(nf));
        proof {
            assert(out@ =~= render(v@, strings_view(self.strings@), false));
        }
        chars_to_string(&out)
    }
}

} // verus!
