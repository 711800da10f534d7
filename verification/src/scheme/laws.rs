//! Laws of the special forms and primitives, each stated over what an
//! operation is given and what it gives back.
use vstd::prelude::*;

use super::builtins::{append_from, assoc_index, builtin_call, member_index, compare_from, div_fold, fold_ints, string_append_from, text_less, SArg};
use super::env::SState;
use super::error::ErrorView;
use super::expr::SExpr;
use super::position::SourcePos;
use super::env::{binding_frame, define_all, frame_get, law_lookup_after_define, law_lookup_after_set, lemma_define_all_get, lookup, new_frame, state_ok};
use super::semantics::{and_from, apply_closure_values, case_from, cond_from, eval_expr, eval_list, matches_any, or_from, seq_from};
use super::value::{escape_body, render, truthy, Builtin, SValue};

verus! {

/// An evaluated argument at `at`.
pub open spec fn arg(value: SValue, at: SourcePos) -> SArg {
    SArg { value, pos: at }
}

/// The value a primitive gives on one argument, or its error.
pub open spec fn call1(st: SState, b: Builtin, x: SArg, pos: SourcePos) -> Result<SValue, ErrorView> {
    builtin_call(st, b, seq![x], pos).1
}

/// The value a primitive gives on two arguments, or its error.
pub open spec fn call2(st: SState, b: Builtin, x: SArg, y: SArg, pos: SourcePos) -> Result<SValue, ErrorView> {
    builtin_call(st, b, seq![x, y], pos).1
}

// ---------------------------------------------------------------- and, or

/// The names of the special forms, character by character, so that any two
/// are told apart.
proof fn lemma_form_names()
    ensures
        "define"@.len() == 6,
        "define"@[0] == 'd',
        "define"@[1] == 'e',
        "define"@[2] == 'f',
        "define"@[3] == 'i',
        "define"@[4] == 'n',
        "define"@[5] == 'e',
        "set!"@.len() == 4,
        "set!"@[0] == 's',
        "set!"@[1] == 'e',
        "set!"@[2] == 't',
        "set!"@[3] == '!',
        "if"@.len() == 2,
        "if"@[0] == 'i',
        "if"@[1] == 'f',
        "quote"@.len() == 5,
        "quote"@[0] == 'q',
        "quote"@[1] == 'u',
        "quote"@[2] == 'o',
        "quote"@[3] == 't',
        "quote"@[4] == 'e',
        "lambda"@.len() == 6,
        "lambda"@[0] == 'l',
        "lambda"@[1] == 'a',
        "lambda"@[2] == 'm',
        "lambda"@[3] == 'b',
        "lambda"@[4] == 'd',
        "lambda"@[5] == 'a',
        "begin"@.len() == 5,
        "begin"@[0] == 'b',
        "begin"@[1] == 'e',
        "begin"@[2] == 'g',
        "begin"@[3] == 'i',
        "begin"@[4] == 'n',
        "let"@.len() == 3,
        "let"@[0] == 'l',
        "let"@[1] == 'e',
        "let"@[2] == 't',
        "let*"@.len() == 4,
        "let*"@[0] == 'l',
        "let*"@[1] == 'e',
        "let*"@[2] == 't',
        "let*"@[3] == '*',
        "letrec"@.len() == 6,
        "letrec"@[0] == 'l',
        "letrec"@[1] == 'e',
        "letrec"@[2] == 't',
        "letrec"@[3] == 'r',
        "letrec"@[4] == 'e',
        "letrec"@[5] == 'c',
        "letrec*"@.len() == 7,
        "letrec*"@[0] == 'l',
        "letrec*"@[1] == 'e',
        "letrec*"@[2] == 't',
        "letrec*"@[3] == 'r',
        "letrec*"@[4] == 'e',
        "letrec*"@[5] == 'c',
        "letrec*"@[6] == '*',
        "cond"@.len() == 4,
        "cond"@[0] == 'c',
        "cond"@[1] == 'o',
        "cond"@[2] == 'n',
        "cond"@[3] == 'd',
        "case"@.len() == 4,
        "case"@[0] == 'c',
        "case"@[1] == 'a',
        "case"@[2] == 's',
        "case"@[3] == 'e',
        "do"@.len() == 2,
        "do"@[0] == 'd',
        "do"@[1] == 'o',
        "and"@.len() == 3,
        "and"@[0] == 'a',
        "and"@[1] == 'n',
        "and"@[2] == 'd',
        "or"@.len() == 2,
        "or"@[0] == 'o',
        "or"@[1] == 'r',
{
    reveal_strlit("define");
    reveal_strlit("set!");
    reveal_strlit("if");
    reveal_strlit("quote");
    reveal_strlit("lambda");
    reveal_strlit("begin");
    reveal_strlit("let");
    reveal_strlit("let*");
    reveal_strlit("letrec");
    reveal_strlit("letrec*");
    reveal_strlit("cond");
    reveal_strlit("case");
    reveal_strlit("do");
    reveal_strlit("and");
    reveal_strlit("or");
}

/// Moving past the first operand of an `and` or `or`: from index `i` on, the
/// operands of `args` run as those of `args` without its first run from
/// `i - 1` on.
proof fn lemma_and_or_shift(st: SState, args: Seq<SExpr>, i: int, r1: SValue, r2: SValue, env: usize, d: nat)
    requires
        1 <= i < args.len(),
    ensures
        and_from(st, args, i, r1, env, d) == and_from(st, args.skip(1), i - 1, r2, env, d),
        or_from(st, args, i, r1, env, d) == or_from(st, args.skip(1), i - 1, r2, env, d),
    decreases args.len() - i,
{
    assert(args.skip(1)[i - 1] == args[i]);
    let (st1, r) = eval_expr(st, args[i], env, d);
    match r {
        Ok(v) => {
            if i + 1 < args.len() {
                lemma_and_or_shift(st1, args, i + 1, v, v, env, d);
            }
        },
        Err(_) => {},
    }
}

/// `and` stops at the first operand whose value is false: what the whole form
/// gives, and the state after it, are those of that operand, and no later
/// operand is evaluated. An operand that fails ends the form the same way.
pub proof fn law_and_stops_at_false(st: SState, items: Seq<SExpr>, pos: SourcePos, env: usize, d: nat, p: SourcePos)
    requires
        items.len() >= 2,
        items[0] == SExpr::Symbol("and"@, p),
        eval_expr(st, items[1], env, d).1 matches Ok(v) ==> !truthy(v),
    ensures
        eval_list(st, items, pos, env, d) == eval_expr(st, items[1], env, d),
{
    lemma_form_names();
    assert(items.skip(1)[0] == items[1]);
}

/// After an operand of `and` that is true, the form goes on as an `and` of
/// the operands after it, from the state that operand left.
pub proof fn law_and_goes_on_after_true(st: SState, items: Seq<SExpr>, pos: SourcePos, env: usize, d: nat, p: SourcePos)
    requires
        items.len() >= 3,
        items[0] == SExpr::Symbol("and"@, p),
        eval_expr(st, items[1], env, d).1 matches Ok(v) && truthy(v),
    ensures
        eval_list(st, items, pos, env, d) == eval_list(
            eval_expr(st, items[1], env, d).0,
            seq![items[0]] + items.skip(2),
            pos,
            env,
            d,
        ),
{
    lemma_form_names();
    let rest = seq![items[0]] + items.skip(2);
    assert(items.skip(1)[0] == items[1]);
    assert(rest[0] == items[0]);
    assert(rest.skip(1) =~= items.skip(1).skip(1));
    let v = eval_expr(st, items[1], env, d).1->Ok_0;
    lemma_and_or_shift(eval_expr(st, items[1], env, d).0, items.skip(1), 1, v, SValue::Boolean(true), env, d);
}

/// The last operand of an `and` gives the form's value: `(and e)` is `e`.
pub proof fn law_and_of_one(st: SState, items: Seq<SExpr>, pos: SourcePos, env: usize, d: nat, p: SourcePos)
    requires
        items.len() == 2,
        items[0] == SExpr::Symbol("and"@, p),
    ensures
        eval_list(st, items, pos, env, d) == eval_expr(st, items[1], env, d),
{
    lemma_form_names();
    assert(items.skip(1)[0] == items[1]);
    let (st1, r) = eval_expr(st, items[1], env, d);
    if r matches Ok(v) {
        assert(and_from(st1, items.skip(1), 1, r->Ok_0, env, d) == (st1, r));
    }
}

/// `(and)` is `#t`.
pub proof fn law_and_of_none(st: SState, items: Seq<SExpr>, pos: SourcePos, env: usize, d: nat, p: SourcePos)
    requires
        items.len() == 1,
        items[0] == SExpr::Symbol("and"@, p),
    ensures
        eval_list(st, items, pos, env, d) == (st, Ok::<SValue, ErrorView>(SValue::Boolean(true))),
{
    lemma_form_names();
}

/// `or` stops at the first operand whose value is true: what the whole form
/// gives, and the state after it, are those of that operand, and no later
/// operand is evaluated. An operand that fails ends the form the same way.
pub proof fn law_or_stops_at_true(st: SState, items: Seq<SExpr>, pos: SourcePos, env: usize, d: nat, p: SourcePos)
    requires
        items.len() >= 2,
        items[0] == SExpr::Symbol("or"@, p),
        eval_expr(st, items[1], env, d).1 matches Ok(v) ==> truthy(v),
    ensures
        eval_list(st, items, pos, env, d) == eval_expr(st, items[1], env, d),
{
    lemma_form_names();
    assert(items.skip(1)[0] == items[1]);
}

/// After an operand of `or` that is false, the form goes on as an `or` of the
/// operands after it, from the state that operand left.
pub proof fn law_or_goes_on_after_false(st: SState, items: Seq<SExpr>, pos: SourcePos, env: usize, d: nat, p: SourcePos)
    requires
        items.len() >= 3,
        items[0] == SExpr::Symbol("or"@, p),
        eval_expr(st, items[1], env, d).1 matches Ok(v) && !truthy(v),
    ensures
        eval_list(st, items, pos, env, d) == eval_list(
            eval_expr(st, items[1], env, d).0,
            seq![items[0]] + items.skip(2),
            pos,
            env,
            d,
        ),
{
    lemma_form_names();
    let rest = seq![items[0]] + items.skip(2);
    assert(items.skip(1)[0] == items[1]);
    assert(rest[0] == items[0]);
    assert(rest.skip(1) =~= items.skip(1).skip(1));
    let v = eval_expr(st, items[1], env, d).1->Ok_0;
    lemma_and_or_shift(eval_expr(st, items[1], env, d).0, items.skip(1), 1, v, SValue::Boolean(false), env, d);
}

/// `(or)` is `#f`, and `(or e)` is `e`.
pub proof fn law_or_of_none_and_one(st: SState, items: Seq<SExpr>, pos: SourcePos, env: usize, d: nat, p: SourcePos)
    requires
        1 <= items.len() <= 2,
        items[0] == SExpr::Symbol("or"@, p),
    ensures
        items.len() == 1 ==> eval_list(st, items, pos, env, d) == (st, Ok::<SValue, ErrorView>(SValue::Boolean(false))),
        items.len() == 2 ==> eval_list(st, items, pos, env, d) == eval_expr(st, items[1], env, d),
{
    lemma_form_names();
    if items.len() == 2 {
        assert(items.skip(1)[0] == items[1]);
        let (st1, r) = eval_expr(st, items[1], env, d);
        if r matches Ok(v) {
            assert(or_from(st1, items.skip(1), 1, r->Ok_0, env, d) == (st1, r));
        }
    }
}

// ---------------------------------------------------------------- if, begin

/// `if` evaluates its test and then exactly one branch: the consequent when
/// the test's value is true, the alternative when it is `#f`; a failing test
/// ends the form.
pub proof fn law_if_takes_one_branch(st: SState, items: Seq<SExpr>, pos: SourcePos, env: usize, d: nat, p: SourcePos)
    requires
        items.len() == 4,
        items[0] == SExpr::Symbol("if"@, p),
    ensures
        ({
            let (st1, r) = eval_expr(st, items[1], env, d);
            &&& (r is Ok && truthy(r->Ok_0)) ==> eval_list(st, items, pos, env, d) == eval_expr(st1, items[2], env, d)
            &&& (r is Ok && !truthy(r->Ok_0)) ==> eval_list(st, items, pos, env, d) == eval_expr(st1, items[3], env, d)
            &&& r is Err ==> eval_list(st, items, pos, env, d) == (st1, r)
        }),
{
    lemma_form_names();
    assert(items.skip(1)[0] == items[1]);
    assert(items.skip(1)[1] == items[2]);
    assert(items.skip(1)[2] == items[3]);
}

/// `begin` evaluates its expressions in order and gives the value of the
/// last: `(begin)` gives nothing (the void value), `(begin e)` is `e`, and
/// after a first expression that succeeds, `(begin e1 e2 ...)` goes on as
/// `(begin e2 ...)` from the state `e1` left.
pub proof fn law_begin_in_order(st: SState, items: Seq<SExpr>, pos: SourcePos, env: usize, d: nat, p: SourcePos)
    requires
        items.len() >= 1,
        items[0] == SExpr::Symbol("begin"@, p),
    ensures
        items.len() == 1 ==> eval_list(st, items, pos, env, d) == (st, Ok::<SValue, ErrorView>(SValue::Void)),
        items.len() == 2 ==> eval_list(st, items, pos, env, d) == eval_expr(st, items[1], env, d),
        items.len() >= 3 ==> ({
            let (st1, r) = eval_expr(st, items[1], env, d);
            &&& r is Ok ==> eval_list(st, items, pos, env, d) == eval_list(st1, seq![items[0]] + items.skip(2), pos, env, d)
            &&& r is Err ==> eval_list(st, items, pos, env, d) == (st1, r)
        }),
{
    lemma_form_names();
    if items.len() >= 2 {
        assert(items.skip(1)[0] == items[1]);
        let (st1, r) = eval_expr(st, items[1], env, d);
        if r is Ok {
            let v = r->Ok_0;
            lemma_seq_shift(st1, items.skip(1), 1, v, SValue::Void, env, d);
            let rest = seq![items[0]] + items.skip(2);
            assert(rest[0] == items[0]);
            assert(rest.skip(1) =~= items.skip(1).skip(1));
        }
    }
}

/// Moving past the first expression of a sequence: from index `i` on, the
/// expressions of `es` run as those of `es` without its first from `i - 1`
/// on; what came before matters only when none is left.
proof fn lemma_seq_shift(st: SState, es: Seq<SExpr>, i: int, last: SValue, v: SValue, env: usize, d: nat)
    requires
        1 <= i <= es.len(),
    ensures
        i < es.len() ==> seq_from(st, es, i, last, env, d) == seq_from(st, es.skip(1), i - 1, v, env, d),
        i == es.len() ==> seq_from(st, es, i, last, env, d) == (st, Ok::<SValue, ErrorView>(last)),
        i == es.len() ==> seq_from(st, es.skip(1), i - 1, v, env, d) == (st, Ok::<SValue, ErrorView>(v)),
    decreases es.len() - i,
{
    if i < es.len() {
        assert(es.skip(1)[i - 1] == es[i]);
        let (st1, r) = eval_expr(st, es[i], env, d);
        if r is Ok {
            lemma_seq_shift(st1, es, i + 1, r->Ok_0, r->Ok_0, env, d);
        }
    }
}

// ---------------------------------------------------------------- define, set!

/// After `(define x e)` succeeds, `x` looked up where it was defined gives
/// the value of `e`, and the form's value is the void value.
pub proof fn law_define_then_lookup(st: SState, items: Seq<SExpr>, pos: SourcePos, env: usize, d: nat, p: SourcePos, name: Seq<char>, q: SourcePos)
    requires
        items.len() == 3,
        items[0] == SExpr::Symbol("define"@, p),
        items[1] == SExpr::Symbol(name, q),
        eval_expr(st, items[2], env, d).1 is Ok,
        state_ok(eval_expr(st, items[2], env, d).0),
        env < eval_expr(st, items[2], env, d).0.frames.len(),
    ensures
        ({
            let (st2, r) = eval_list(st, items, pos, env, d);
            &&& r == Ok::<SValue, ErrorView>(SValue::Void)
            &&& lookup(st2.frames, env as int, name) == Some(eval_expr(st, items[2], env, d).1->Ok_0)
        }),
{
    lemma_form_names();
    assert(items.skip(1)[0] == items[1]);
    assert(items.skip(1)[1] == items[2]);
    let (st1, r) = eval_expr(st, items[2], env, d);
    law_lookup_after_define(st1, env as int, name, r->Ok_0);
}

/// After `(set! x e)` succeeds, `x` looked up from the same place gives the
/// value of `e`; when `x` is bound nowhere, `set!` fails and binds nothing.
pub proof fn law_set_then_lookup(st: SState, items: Seq<SExpr>, pos: SourcePos, env: usize, d: nat, p: SourcePos, name: Seq<char>, q: SourcePos)
    requires
        items.len() == 3,
        items[0] == SExpr::Symbol("set!"@, p),
        items[1] == SExpr::Symbol(name, q),
        eval_expr(st, items[2], env, d).1 is Ok,
        state_ok(eval_expr(st, items[2], env, d).0),
    ensures
        ({
            let (st1, v) = eval_expr(st, items[2], env, d);
            let (st2, r) = eval_list(st, items, pos, env, d);
            &&& binding_frame(st1.frames, env as int, name) >= 0 ==> r == Ok::<SValue, ErrorView>(SValue::Void)
                && lookup(st2.frames, env as int, name) == Some(v->Ok_0)
            &&& binding_frame(st1.frames, env as int, name) < 0 ==> r is Err && st2 == st1
        }),
{
    lemma_form_names();
    assert(items.skip(1)[0] == items[1]);
    assert(items.skip(1)[1] == items[2]);
    let (st1, r) = eval_expr(st, items[2], env, d);
    if binding_frame(st1.frames, env as int, name) >= 0 {
        law_lookup_after_set(st1, env as int, name, r->Ok_0);
    }
}

// ---------------------------------------------------------------- cond

/// Moving past the first clause of a `cond`: from index `i` on, the clauses
/// of `args` run as those of `args` without its first from `i - 1` on.
proof fn lemma_cond_shift(st: SState, args: Seq<SExpr>, i: int, env: usize, d: nat)
    requires
        1 <= i <= args.len(),
    ensures
        cond_from(st, args, i, env, d) == cond_from(st, args.skip(1), i - 1, env, d),
    decreases args.len() - i,
{
    if i < args.len() {
        assert(args.skip(1)[i - 1] == args[i]);
        match args[i] {
            SExpr::List(clause, _) => if clause.len() > 0 {
                let test = clause[0];
                if !(test is Symbol && test->Symbol_0 == "else"@) {
                    let (st1, r) = eval_expr(st, test, env, d);
                    lemma_cond_shift(st1, args, i + 1, env, d);
                }
            },
            _ => {},
        }
    }
}

/// `cond` tries its clauses in order. When the first clause's test (not
/// `else`) gives a true value, the form gives what the clause's body gives,
/// run as a `begin` from the state the test left, or the test's value when the
/// body is empty; when it gives `#f`, the form goes on as a `cond` of the
/// other clauses, or gives the void value when there are none.
pub proof fn law_cond_tries_clauses_in_order(
    st: SState,
    items: Seq<SExpr>,
    pos: SourcePos,
    env: usize,
    d: nat,
    p: SourcePos,
    clause: Seq<SExpr>,
    cp: SourcePos,
    bp: SourcePos,
)
    requires
        items.len() >= 2,
        items[0] == SExpr::Symbol("cond"@, p),
        items[1] == SExpr::List(clause, cp),
        clause.len() >= 1,
        !(clause[0] is Symbol && clause[0]->Symbol_0 == "else"@),
    ensures
        ({
            let (st1, r) = eval_expr(st, clause[0], env, d);
            let result = eval_list(st, items, pos, env, d);
            &&& r is Err ==> result == (st1, r)
            &&& (r is Ok && truthy(r->Ok_0) && clause.len() == 1) ==> result == (st1, r)
            &&& (r is Ok && truthy(r->Ok_0) && clause.len() > 1) ==> result == eval_list(
                st1,
                seq![SExpr::Symbol("begin"@, bp)] + clause.skip(1),
                pos,
                env,
                d,
            )
            &&& (r is Ok && !truthy(r->Ok_0) && items.len() == 2) ==> result == (st1, Ok::<SValue, ErrorView>(SValue::Void))
            &&& (r is Ok && !truthy(r->Ok_0) && items.len() > 2) ==> result == eval_list(
                st1,
                seq![items[0]] + items.skip(2),
                pos,
                env,
                d,
            )
        }),
{
    lemma_form_names();
    let args = items.skip(1);
    assert(args[0] == items[1]);
    let (st1, r) = eval_expr(st, clause[0], env, d);
    assert(super::semantics::eval_cond(st, args, env, p, d) == cond_from(st, args, 0, env, d));
    assert(eval_list(st, items, pos, env, d) == cond_from(st, args, 0, env, d));
    let b = seq![SExpr::Symbol("begin"@, bp)] + clause.skip(1);
    assert(b[0] == SExpr::Symbol("begin"@, bp));
    assert(b.skip(1) =~= clause.skip(1));
    if items.len() > 2 {
        let rest = seq![items[0]] + items.skip(2);
        assert(rest[0] == items[0]);
        assert(rest.skip(1) =~= args.skip(1));
        lemma_cond_shift(st1, args, 1, env, d);
    }
}

// ---------------------------------------------------------------- case

/// Dropping a clause that did not match: from index `i >= 2` on, the clauses
/// of `args` run as those of `args` without its clause at index 1.
proof fn lemma_case_shift(st: SState, args: Seq<SExpr>, i: int, key: SValue, env: usize, d: nat)
    requires
        2 <= i <= args.len(),
    ensures
        case_from(st, args, i, key, env, d) == case_from(st, seq![args[0]] + args.skip(2), i - 1, key, env, d),
    decreases args.len() - i,
{
    let short = seq![args[0]] + args.skip(2);
    assert(short.len() == args.len() - 1);
    if i < args.len() {
        assert(short[i - 1] == args[i]);
        lemma_case_shift(st, args, i + 1, key, env, d);
    }
}

/// A datum that is the integer `n`.
pub open spec fn integer_datum(e: SExpr, n: i64) -> bool {
    match e {
        SExpr::Integer(m, _) => m == n,
        _ => false,
    }
}

/// `case` evaluates its key and runs the body of the first clause with a
/// datum equal to it: when the first clause lists the key's integer, the form
/// gives what the clause's body gives, run as a `begin`; when it does not,
/// and the key leaves the state as it was, the form gives what it would
/// without that clause.
pub proof fn law_case_picks_the_matching_clause(
    st: SState,
    items: Seq<SExpr>,
    pos: SourcePos,
    env: usize,
    d: nat,
    p: SourcePos,
    n: i64,
    data: Seq<SExpr>,
    body: Seq<SExpr>,
    dp: SourcePos,
    cp: SourcePos,
    bp: SourcePos,
)
    requires
        items.len() >= 3,
        items[0] == SExpr::Symbol("case"@, p),
        items[2] == SExpr::List(seq![SExpr::List(data, dp)] + body, cp),
        eval_expr(st, items[1], env, d).1 == Ok::<SValue, ErrorView>(SValue::Integer(n)),
    ensures
        (exists|j: int| 0 <= j < data.len() && #[trigger] integer_datum(data[j], n)) ==> eval_list(
            st,
            items,
            pos,
            env,
            d,
        ) == eval_list(eval_expr(st, items[1], env, d).0, seq![SExpr::Symbol("begin"@, bp)] + body, pos, env, d),
        (!(exists|j: int| 0 <= j < data.len() && #[trigger] integer_datum(data[j], n)) && items.len() > 3
            && eval_expr(st, items[1], env, d).0 == st) ==> eval_list(st, items, pos, env, d) == eval_list(
            st,
            seq![items[0], items[1]] + items.skip(3),
            pos,
            env,
            d,
        ),
{
    lemma_form_names();
    let args = items.skip(1);
    assert(args[0] == items[1]);
    assert(args[1] == items[2]);
    let clause = seq![SExpr::List(data, dp)] + body;
    assert(clause[0] == SExpr::List(data, dp));
    assert(clause.skip(1) =~= body);
    let key = SValue::Integer(n);
    let (st1, r) = eval_expr(st, items[1], env, d);
    assert(super::semantics::eval_case(st, args, env, p, d) == case_from(st1, args, 1, key, env, d));
    assert(eval_list(st, items, pos, env, d) == case_from(st1, args, 1, key, env, d));
    assert(!(clause[0] is Symbol));
    let b = seq![SExpr::Symbol("begin"@, bp)] + body;
    assert(b[0] == SExpr::Symbol("begin"@, bp));
    assert(b.skip(1) =~= body);
    assert(eval_list(st1, b, pos, env, d) == seq_from(st1, body, 0, SValue::Void, env, d));
    if exists|j: int| 0 <= j < data.len() && #[trigger] integer_datum(data[j], n) {
        let j = choose|j: int| 0 <= j < data.len() && #[trigger] integer_datum(data[j], n);
        assert(super::semantics::datum_matches(key, data[j]));
        assert(matches_any(key, data));
    } else {
        assert(!matches_any(key, data)) by {
            if matches_any(key, data) {
                let j = choose|j: int| 0 <= j < data.len() && #[trigger] super::semantics::datum_matches(key, data[j]);
                assert(integer_datum(data[j], n));
            }
        }
        if items.len() > 3 {
            let short = seq![items[0], items[1]] + items.skip(3);
            assert(short[0] == items[0]);
            assert(short.skip(1) =~= seq![args[0]] + args.skip(2));
            assert(short.skip(1)[0] == items[1]);
            lemma_case_shift(st1, args, 2, key, env, d);
            assert(super::semantics::eval_case(st, short.skip(1), env, p, d) == case_from(st1, short.skip(1), 1, key, env, d));
            assert(eval_list(st, short, pos, env, d) == case_from(st1, short.skip(1), 1, key, env, d));
        }
    }
}

// ---------------------------------------------------------------- let

/// `(let ((x e)) x)` gives the value of `e`: `let` binds each name to the
/// value of its expression for the body.
pub proof fn law_let_binds_its_names(
    st: SState,
    items: Seq<SExpr>,
    pos: SourcePos,
    env: usize,
    d: nat,
    p: SourcePos,
    name: Seq<char>,
    q: SourcePos,
    e: SExpr,
    bp: SourcePos,
    lp: SourcePos,
)
    requires
        items == seq![
            SExpr::Symbol("let"@, p),
            SExpr::List(seq![SExpr::List(seq![SExpr::Symbol(name, q), e], bp)], lp),
            SExpr::Symbol(name, q),
        ],
        eval_expr(st, e, env, d).1 is Ok,
        d >= 1,
        eval_expr(st, e, env, d).0.frames.len() < usize::MAX,
    ensures
        eval_list(st, items, pos, env, d).1 == eval_expr(st, e, env, d).1,
{
    lemma_form_names();
    let args = items.skip(1);
    assert(args[0] == items[1]);
    assert(args.skip(1) =~= seq![SExpr::Symbol(name, q)]);
    let bindings = seq![SExpr::List(seq![SExpr::Symbol(name, q), e], bp)];
    assert(Seq::<Seq<char>>::empty().push(name) =~= seq![name]);
    assert(Seq::<SExpr>::empty().push(e) =~= seq![e]);
    assert(super::semantics::parse_bindings(bindings, 1, seq![name], seq![e]) == Ok::<(Seq<Seq<char>>, Seq<SExpr>), ErrorView>((seq![name], seq![e])));
    assert(super::semantics::parse_bindings(bindings, 0, Seq::empty(), Seq::empty()) == Ok::<(Seq<Seq<char>>, Seq<SExpr>), ErrorView>((seq![name], seq![e])));
    let (st1, r) = eval_expr(st, e, env, d);
    let v = r->Ok_0;
    assert(Seq::<SValue>::empty().push(v) =~= seq![v]);
    assert(super::semantics::values_from(st1, seq![e], 1, seq![v], env, d) == (st1, Ok::<Seq<SValue>, ErrorView>(seq![v])));
    assert(super::semantics::values_from(st, seq![e], 0, Seq::empty(), env, d) == (st1, Ok::<Seq<SValue>, ErrorView>(seq![v])));
    let (st2, let_env) = new_frame(st1, env);
    lemma_define_all_get(st2, let_env as int, seq![name], seq![v], 0);
    let st3 = define_all(st2, let_env as int, seq![name], seq![v]);
    assert(lookup(st3.frames, let_env as int, name) == Some(v));
    assert(seq_from(st3, args.skip(1), 1, v, env, d) == (st3, Ok::<SValue, ErrorView>(v)));
    assert(seq_from(st3, args.skip(1), 0, SValue::Void, let_env, d) == (st3, Ok::<SValue, ErrorView>(v)));
    assert(super::semantics::eval_let(st, args, env, p, d).1 == Ok::<SValue, ErrorView>(v));
}

// ---------------------------------------------------------------- calls

/// Calling a procedure binds each parameter to the argument in the same
/// place: a body that names the `k`-th parameter gives the `k`-th argument.
/// A call with another number of arguments than parameters fails.
pub proof fn law_call_binds_parameters(
    st: SState,
    params: Seq<Seq<char>>,
    values: Seq<SValue>,
    closure_env: usize,
    pos: SourcePos,
    d: nat,
    k: int,
    q: SourcePos,
)
    requires
        params.len() == values.len(),
        forall|i: int| 0 <= i < params.len() ==> #[trigger] params[i].len() > 0,
        forall|i: int, j: int| 0 <= i < j < params.len() ==> params[i] != params[j],
        0 <= k < params.len(),
        d >= 1,
        st.frames.len() < usize::MAX,
    ensures
        apply_closure_values(st, params, seq![SExpr::Symbol(params[k], q)], closure_env, values, pos, d).1
            == Ok::<SValue, ErrorView>(values[k]),
        apply_closure_values(st, params, seq![SExpr::Symbol(params[k], q)], closure_env, values.push(values[k]), pos, d).1 is Err,
{
    assert(params[params.len() - 2].len() > 0 || params.len() < 2);
    let (st1, call_env) = new_frame(st, closure_env);
    assert forall|j: int| 0 <= j < params.len() && j != k implies params[j] != params[k] by {
        if j < k {
        } else {
        }
    }
    lemma_define_all_get(st1, call_env as int, params, values, k);
    let st2 = define_all(st1, call_env as int, params, values);
    assert(lookup(st2.frames, call_env as int, params[k]) == Some(values[k]));
}

/// A procedure with a rest parameter binds it to the list of the arguments
/// after those for its other parameters.
pub proof fn law_call_binds_rest_parameter(
    st: SState,
    required: Seq<Seq<char>>,
    rest: Seq<char>,
    values: Seq<SValue>,
    closure_env: usize,
    pos: SourcePos,
    d: nat,
    q: SourcePos,
)
    requires
        required.len() <= values.len(),
        rest.len() > 0,
        forall|i: int| 0 <= i < required.len() ==> #[trigger] required[i] != rest,
        d >= 1,
        st.frames.len() < usize::MAX,
    ensures
        apply_closure_values(st, required.push(Seq::empty()).push(rest), seq![SExpr::Symbol(rest, q)], closure_env, values, pos, d).1
            == Ok::<SValue, ErrorView>(SValue::List(values.skip(required.len() as int))),
{
    let params = required.push(Seq::empty()).push(rest);
    let names = super::semantics::bound_names(params);
    let vals = super::semantics::bound_values(params, values);
    assert(names =~= required.push(rest));
    let (st1, call_env) = new_frame(st, closure_env);
    let k = required.len() as int;
    assert(names[k] == rest);
    assert forall|j: int| 0 <= j < names.len() && j != k implies names[j] != names[k] by {
        assert(names[j] == required[j]);
    }
    lemma_define_all_get(st1, call_env as int, names, vals, k);
}

// ---------------------------------------------------------------- quote

/// `(quote d)` gives the datum itself as a value: a number, boolean,
/// character or symbol as it is written, and nothing else changes.
pub proof fn law_quote_gives_the_datum(st: SState, items: Seq<SExpr>, pos: SourcePos, env: usize, d: nat, p: SourcePos)
    requires
        items.len() == 2,
        items[0] == SExpr::Symbol("quote"@, p),
    ensures
        items[1] matches SExpr::Integer(n, _) ==> eval_list(st, items, pos, env, d) == (st, Ok::<SValue, ErrorView>(SValue::Integer(n))),
        items[1] matches SExpr::Boolean(b, _) ==> eval_list(st, items, pos, env, d) == (st, Ok::<SValue, ErrorView>(SValue::Boolean(b))),
        items[1] matches SExpr::Character(c, _) ==> eval_list(st, items, pos, env, d) == (st, Ok::<SValue, ErrorView>(SValue::Character(c))),
        items[1] matches SExpr::Symbol(name, _) ==> eval_list(st, items, pos, env, d) == (st, Ok::<SValue, ErrorView>(SValue::Symbol(name))),
{
    lemma_form_names();
    assert(items.skip(1)[0] == items[1]);
}

// ---------------------------------------------------------------- lists

/// `list-ref` gives the element `k` places from the front of the list.
pub proof fn law_list_ref_counts_from_the_front(st: SState, vs: Seq<SValue>, k: i64, at: SourcePos, kt: SourcePos, pos: SourcePos)
    requires
        0 <= k < vs.len(),
    ensures
        builtin_call(st, Builtin::ListRef, seq![arg(SValue::List(vs), at), arg(SValue::Integer(k), kt)], pos)
            == (st, Ok::<SValue, ErrorView>(vs[k as int])),
{
}

/// `(list-ref (cons x l) 0)` is `x`, and `(list-ref (cons x l) (+ k 1))` is
/// `(list-ref l k)`, error or not.
pub proof fn law_list_ref_of_cons(st: SState, x: SValue, vs: Seq<SValue>, k: i64, at: SourcePos, kt: SourcePos, pos: SourcePos)
    requires
        0 <= k < i64::MAX,
    ensures
        call2(st, Builtin::ListRef, arg(SValue::List(seq![x] + vs), at), arg(SValue::Integer(0), kt), pos)
            == Ok::<SValue, ErrorView>(x),
        call2(st, Builtin::ListRef, arg(SValue::List(seq![x] + vs), at), arg(SValue::Integer((k + 1) as i64), kt), pos)
            == call2(st, Builtin::ListRef, arg(SValue::List(vs), at), arg(SValue::Integer(k), kt), pos),
{
    assert((seq![x] + vs)[0] == x);
    if k < vs.len() {
        assert((seq![x] + vs)[k + 1] == vs[k as int]);
    }
}

/// `memv` of an integer finds its first occurrence in a list and gives the
/// list from there on, or `#f` when it does not occur.
pub proof fn law_memv_finds_the_first(st: SState, n: i64, items: Seq<SValue>, k: int, at: SourcePos, lt: SourcePos, pos: SourcePos)
    ensures
        (forall|j: int| 0 <= j < items.len() ==> items[j] != SValue::Integer(n)) ==> call2(
            st,
            Builtin::Memv,
            arg(SValue::Integer(n), at),
            arg(SValue::List(items), lt),
            pos,
        ) == Ok::<SValue, ErrorView>(SValue::Boolean(false)),
        (0 <= k < items.len() && items[k] == SValue::Integer(n) && forall|j: int| 0 <= j < k ==> items[j] != SValue::Integer(n))
            ==> call2(st, Builtin::Memv, arg(SValue::Integer(n), at), arg(SValue::List(items), lt), pos)
            == Ok::<SValue, ErrorView>(SValue::List(items.skip(k))),
{
    let key = SValue::Integer(n);
    assert forall|v: SValue| super::builtins::same_as(key, v, false, st.strings) <==> v == key by {}
    if forall|j: int| 0 <= j < items.len() ==> items[j] != key {
        lemma_member_none(items, 0, key, st.strings);
    }
    if 0 <= k < items.len() && items[k] == key && forall|j: int| 0 <= j < k ==> items[j] != key {
        lemma_member_first(items, 0, key, st.strings, k);
    }
}

proof fn lemma_member_none(items: Seq<SValue>, i: int, key: SValue, strings: Seq<Seq<char>>)
    requires
        0 <= i,
        forall|v: SValue| super::builtins::same_as(key, v, false, strings) <==> v == key,
        forall|j: int| 0 <= j < items.len() ==> items[j] != key,
    ensures
        member_index(items, i, key, false, strings) == -1,
    decreases items.len() - i,
{
    if i < items.len() {
        assert(items[i] != key);
        lemma_member_none(items, i + 1, key, strings);
    }
}

proof fn lemma_member_first(items: Seq<SValue>, i: int, key: SValue, strings: Seq<Seq<char>>, k: int)
    requires
        0 <= i <= k < items.len(),
        forall|v: SValue| super::builtins::same_as(key, v, false, strings) <==> v == key,
        items[k] == key,
        forall|j: int| 0 <= j < k ==> items[j] != key,
    ensures
        member_index(items, i, key, false, strings) == k,
    decreases k - i,
{
    if i < k {
        assert(items[i] != key);
        lemma_member_first(items, i + 1, key, strings, k);
    }
}

/// `assv` of an integer finds the first entry of an association list whose
/// first element is that integer, or gives `#f`.
pub proof fn law_assv_finds_the_first(st: SState, n: i64, items: Seq<SValue>, k: int, at: SourcePos, lt: SourcePos, pos: SourcePos)
    ensures
        (forall|j: int| 0 <= j < items.len() ==> !keyed(#[trigger] items[j], n)) ==> call2(
            st,
            Builtin::Assv,
            arg(SValue::Integer(n), at),
            arg(SValue::List(items), lt),
            pos,
        ) == Ok::<SValue, ErrorView>(SValue::Boolean(false)),
        (0 <= k < items.len() && keyed(items[k], n) && forall|j: int| 0 <= j < k ==> !keyed(#[trigger] items[j], n))
            ==> call2(st, Builtin::Assv, arg(SValue::Integer(n), at), arg(SValue::List(items), lt), pos)
            == Ok::<SValue, ErrorView>(items[k]),
{
    let key = SValue::Integer(n);
    assert forall|e: SValue| super::builtins::entry_matches(e, key, false, st.strings) <==> keyed(e, n) by {}
    if forall|j: int| 0 <= j < items.len() ==> !keyed(#[trigger] items[j], n) {
        lemma_assoc_none(items, 0, n, st.strings);
    }
    if 0 <= k < items.len() && keyed(items[k], n) && forall|j: int| 0 <= j < k ==> !keyed(#[trigger] items[j], n) {
        lemma_assoc_first(items, 0, n, st.strings, k);
    }
}

/// An entry of an association list whose first element is the integer `n`.
pub open spec fn keyed(entry: SValue, n: i64) -> bool {
    entry is List && entry->List_0.len() > 0 && entry->List_0[0] == SValue::Integer(n)
}

proof fn lemma_assoc_none(items: Seq<SValue>, i: int, n: i64, strings: Seq<Seq<char>>)
    requires
        0 <= i,
        forall|e: SValue| super::builtins::entry_matches(e, SValue::Integer(n), false, strings) <==> keyed(e, n),
        forall|j: int| 0 <= j < items.len() ==> !keyed(#[trigger] items[j], n),
    ensures
        assoc_index(items, i, SValue::Integer(n), false, strings) == -1,
    decreases items.len() - i,
{
    if i < items.len() {
        assert(!keyed(items[i], n));
        lemma_assoc_none(items, i + 1, n, strings);
    }
}

proof fn lemma_assoc_first(items: Seq<SValue>, i: int, n: i64, strings: Seq<Seq<char>>, k: int)
    requires
        0 <= i <= k < items.len(),
        forall|e: SValue| super::builtins::entry_matches(e, SValue::Integer(n), false, strings) <==> keyed(e, n),
        keyed(items[k], n),
        forall|j: int| 0 <= j < k ==> !keyed(#[trigger] items[j], n),
    ensures
        assoc_index(items, i, SValue::Integer(n), false, strings) == k,
    decreases k - i,
{
    if i < k {
        assert(!keyed(items[i], n));
        lemma_assoc_first(items, i + 1, n, strings, k);
    }
}

/// `append` of two lists is as long as both together.
pub proof fn law_append_length(st: SState, a: Seq<SValue>, b: Seq<SValue>, at: SourcePos, bt: SourcePos, pos: SourcePos)
    ensures
        call2(st, Builtin::Append, arg(SValue::List(a), at), arg(SValue::List(b), bt), pos) matches Ok(SValue::List(c))
            && c.len() == a.len() + b.len() && (forall|i: int| 0 <= i < a.len() ==> c[i] == a[i]) && (forall|i: int|
            0 <= i < b.len() ==> c[a.len() + i] == b[i]),
{
    super::builtins::law_append_two_lists(st, a, b, at, bt, pos);
}

// ---------------------------------------------------------------- output

/// `display` of a string writes the string's own characters, unescaped and
/// unquoted, and changes nothing else.
pub proof fn law_display_writes_a_string_as_it_is(st: SState, h: usize, at: SourcePos, pos: SourcePos)
    requires
        h < st.strings.len(),
    ensures
        builtin_call(st, Builtin::Display, seq![arg(SValue::Str(h), at)], pos)
            == (SState { output: st.output + st.strings[h as int], ..st }, Ok::<SValue, ErrorView>(SValue::Void)),
{
}

/// `display` of a character writes that one character.
pub proof fn law_display_writes_a_character(st: SState, c: char, at: SourcePos, pos: SourcePos)
    ensures
        builtin_call(st, Builtin::Display, seq![arg(SValue::Character(c), at)], pos)
            == (SState { output: st.output.push(c), ..st }, Ok::<SValue, ErrorView>(SValue::Void)),
{
    assert(st.output + seq![c] =~= st.output.push(c));
}

/// `write` of a string whose characters need no escape writes the string
/// between double quotes; `display` of it writes the characters alone.
pub proof fn law_write_quotes_a_plain_string(st: SState, h: usize, at: SourcePos, pos: SourcePos)
    requires
        h < st.strings.len(),
        forall|i: int| 0 <= i < st.strings[h as int].len() ==> plain_char(#[trigger] st.strings[h as int][i]),
    ensures
        builtin_call(st, Builtin::Write, seq![arg(SValue::Str(h), at)], pos) == (
            SState { output: st.output + seq!['"'] + st.strings[h as int] + seq!['"'], ..st },
            Ok::<SValue, ErrorView>(SValue::Void),
        ),
{
    lemma_plain_escape(st.strings[h as int]);
    assert(seq!['"'] + st.strings[h as int] + seq!['"'] =~= seq!['"'] + escape_body(st.strings[h as int]) + seq!['"']);
    assert(st.output + (seq!['"'] + st.strings[h as int] + seq!['"']) =~= st.output + seq!['"'] + st.strings[h as int] + seq!['"']);
}

/// A character that `write` puts in a string literal as it is.
pub open spec fn plain_char(c: char) -> bool {
    c != '\\' && c != '"' && c != '\n' && c != '\r' && c != '\t'
}

proof fn lemma_plain_escape(s: Seq<char>)
    requires
        forall|i: int| 0 <= i < s.len() ==> plain_char(#[trigger] s[i]),
    ensures
        escape_body(s) == s,
    decreases s.len(),
{
    if s.len() > 0 {
        lemma_plain_escape(s.drop_last());
        assert(plain_char(s[s.len() - 1]));
        assert(s.drop_last() + seq![s.last()] =~= s);
    }
}

/// `display` and `write` of an integer write the same text, which is the
/// text of the string `number->string` makes from it.
pub proof fn law_integer_text_agrees(st: SState, n: i64, at: SourcePos, pos: SourcePos)
    ensures
        ({
            let (sd, rd) = builtin_call(st, Builtin::Display, seq![arg(SValue::Integer(n), at)], pos);
            let (sw, rw) = builtin_call(st, Builtin::Write, seq![arg(SValue::Integer(n), at)], pos);
            let (sn, rn) = builtin_call(st, Builtin::NumberToString, seq![arg(SValue::Integer(n), at)], pos);
            &&& rd == Ok::<SValue, ErrorView>(SValue::Void) && rw == rd
            &&& sd == sw
            &&& rn == Ok::<SValue, ErrorView>(SValue::Str(st.strings.len() as usize))
            &&& sn.strings == st.strings.push(sd.output.skip(st.output.len() as int))
            &&& sd.output.take(st.output.len() as int) == st.output
        }),
{
    let t = super::text::int_text(n as int);
    assert((st.output + t).skip(st.output.len() as int) =~= t);
    assert((st.output + t).take(st.output.len() as int) =~= st.output);
}

// ---------------------------------------------------------------- strings

/// The order of texts is strict and total: of `a == b`, `a` before `b` and
/// `b` before `a`, exactly one holds.
proof fn lemma_text_less_trichotomy(a: Seq<char>, b: Seq<char>)
    ensures
        a == b || text_less(a, b) || text_less(b, a),
        !(text_less(a, b) && text_less(b, a)),
        !text_less(a, a),
    decreases a.len(),
{
    if a.len() > 0 && b.len() > 0 && a[0] == b[0] {
        lemma_text_less_trichotomy(a.skip(1), b.skip(1));
        if a.skip(1) == b.skip(1) {
            assert(a =~= seq![a[0]] + a.skip(1));
            assert(b =~= seq![b[0]] + b.skip(1));
        }
    } else if a.len() > 0 {
        lemma_text_less_trichotomy(a.skip(1), a.skip(1));
    }
    if a.len() == 0 && b.len() == 0 {
        assert(a =~= b);
    }
}

/// The string comparisons agree with one another: `string=?` is equality of
/// the texts; `string>?` is `string<?` with the arguments swapped, and
/// `string>=?` is `string<=?` swapped; `string<=?` holds exactly when the
/// texts are equal or `string<?` holds; and of `string=?`, `string<?` and
/// `string>?` exactly one holds.
pub proof fn law_string_comparisons_agree(st: SState, ha: usize, hb: usize, at: SourcePos, bt: SourcePos, pos: SourcePos)
    requires
        ha < st.strings.len(),
        hb < st.strings.len(),
    ensures
        ({
            let a = st.strings[ha as int];
            let b = st.strings[hb as int];
            let x = arg(SValue::Str(ha), at);
            let y = arg(SValue::Str(hb), bt);
            &&& call2(st, Builtin::StringEqual, x, y, pos) == Ok::<SValue, ErrorView>(SValue::Boolean(a == b))
            &&& call2(st, Builtin::StringLess, x, y, pos) matches Ok(SValue::Boolean(lt))
            &&& call2(st, Builtin::StringLess, y, x, pos) matches Ok(SValue::Boolean(gt))
            &&& call2(st, Builtin::StringGreater, x, y, pos) == call2(st, Builtin::StringLess, y, x, pos)
            &&& call2(st, Builtin::StringLessEqual, x, y, pos) == Ok::<SValue, ErrorView>(SValue::Boolean(a == b || lt))
            &&& call2(st, Builtin::StringGreaterEqual, x, y, pos) == call2(st, Builtin::StringLessEqual, y, x, pos)
            &&& (a == b) as int + lt as int + gt as int == 1
            &&& builtin_call(st, Builtin::StringLessEqual, seq![x, y], pos).0 == st
        }),
{
    lemma_text_less_trichotomy(st.strings[ha as int], st.strings[hb as int]);
}

/// `string<?` orders texts as a dictionary does: where two texts first
/// differ, the one with the smaller character there comes first.
pub proof fn law_string_less_at_first_difference(
    st: SState,
    ha: usize,
    hb: usize,
    i: int,
    at: SourcePos,
    bt: SourcePos,
    pos: SourcePos,
)
    requires
        ha < st.strings.len(),
        hb < st.strings.len(),
        0 <= i < st.strings[ha as int].len(),
        i < st.strings[hb as int].len(),
        st.strings[ha as int].take(i) == st.strings[hb as int].take(i),
        st.strings[ha as int][i] < st.strings[hb as int][i],
    ensures
        call2(st, Builtin::StringLess, arg(SValue::Str(ha), at), arg(SValue::Str(hb), bt), pos)
            == Ok::<SValue, ErrorView>(SValue::Boolean(true)),
        call2(st, Builtin::StringLess, arg(SValue::Str(hb), bt), arg(SValue::Str(ha), at), pos)
            == Ok::<SValue, ErrorView>(SValue::Boolean(false)),
{
    lemma_less_at_first_difference(st.strings[ha as int], st.strings[hb as int], i);
    lemma_text_less_trichotomy(st.strings[ha as int], st.strings[hb as int]);
}

proof fn lemma_less_at_first_difference(a: Seq<char>, b: Seq<char>, i: int)
    requires
        0 <= i < a.len(),
        i < b.len(),
        a.take(i) == b.take(i),
        a[i] < b[i],
    ensures
        text_less(a, b),
    decreases i,
{
    if i > 0 {
        assert(a[0] == a.take(i)[0]);
        assert(b[0] == b.take(i)[0]);
        assert(a.skip(1).take(i - 1) =~= a.take(i).skip(1));
        assert(b.skip(1).take(i - 1) =~= b.take(i).skip(1));
        lemma_less_at_first_difference(a.skip(1), b.skip(1), i - 1);
    }
}

/// A text comes before every longer text that starts with it.
pub proof fn law_string_less_prefix(st: SState, ha: usize, hb: usize, at: SourcePos, bt: SourcePos, pos: SourcePos)
    requires
        ha < st.strings.len(),
        hb < st.strings.len(),
        st.strings[ha as int].len() < st.strings[hb as int].len(),
        st.strings[hb as int].take(st.strings[ha as int].len() as int) == st.strings[ha as int],
    ensures
        call2(st, Builtin::StringLess, arg(SValue::Str(ha), at), arg(SValue::Str(hb), bt), pos)
            == Ok::<SValue, ErrorView>(SValue::Boolean(true)),
{
    lemma_less_prefix(st.strings[ha as int], st.strings[hb as int]);
}

proof fn lemma_less_prefix(a: Seq<char>, b: Seq<char>)
    requires
        a.len() < b.len(),
        b.take(a.len() as int) == a,
    ensures
        text_less(a, b),
    decreases a.len(),
{
    if a.len() > 0 {
        assert(a[0] == b.take(a.len() as int)[0]);
        assert(b.skip(1).take(a.len() - 1) =~= a.skip(1)) by {
            assert forall|j: int| 0 <= j < a.len() - 1 implies #[trigger] b.skip(1).take(a.len() - 1)[j] == a.skip(1)[j] by {
                assert(b.take(a.len() as int)[j + 1] == a[j + 1]);
            }
        }
        lemma_less_prefix(a.skip(1), b.skip(1));
    }
}

// ---------------------------------------------------------------- integers

/// `negative?`, `zero?` and `positive?` tell the sign of an integer: each
/// holds exactly for integers below, at and above zero, so exactly one holds.
pub proof fn law_sign_predicates(st: SState, n: i64, at: SourcePos, pos: SourcePos)
    ensures
        builtin_call(st, Builtin::NegativePredicate, seq![arg(SValue::Integer(n), at)], pos)
            == (st, Ok::<SValue, ErrorView>(SValue::Boolean(n < 0))),
        call1(st, Builtin::ZeroPredicate, arg(SValue::Integer(n), at), pos) == Ok::<SValue, ErrorView>(SValue::Boolean(n == 0)),
        call1(st, Builtin::PositivePredicate, arg(SValue::Integer(n), at), pos)
            == Ok::<SValue, ErrorView>(SValue::Boolean(n > 0)),
{
}

/// `even?` holds of `2m` and `odd?` of `2m + 1`, and never both: every
/// integer is one or the other.
pub proof fn law_parity(st: SState, m: i64, at: SourcePos, pos: SourcePos)
    requires
        i64::MIN <= 2 * m,
        2 * m + 1 <= i64::MAX,
    ensures
        call1(st, Builtin::EvenPredicate, arg(SValue::Integer((2 * m) as i64), at), pos) == Ok::<SValue, ErrorView>(SValue::Boolean(true)),
        call1(st, Builtin::OddPredicate, arg(SValue::Integer((2 * m) as i64), at), pos) == Ok::<SValue, ErrorView>(SValue::Boolean(false)),
        call1(st, Builtin::EvenPredicate, arg(SValue::Integer((2 * m + 1) as i64), at), pos)
            == Ok::<SValue, ErrorView>(SValue::Boolean(false)),
        call1(st, Builtin::OddPredicate, arg(SValue::Integer((2 * m + 1) as i64), at), pos)
            == Ok::<SValue, ErrorView>(SValue::Boolean(true)),
{
    let e = (2 * m) as i64;
    let o = (2 * m + 1) as i64;
    assert(e % 2 == 0) by (nonlinear_arith)
        requires e == 2 * m;
    assert(o % 2 == 1) by (nonlinear_arith)
        requires o == 2 * m + 1;
}

/// `+`, `-` and `*` on two integers give the sum, difference and product
/// whenever it fits in an `i64`; `(- a)` is the negation, `(+)` is 0 and `(*)`
/// is 1; and `+` and `*` do not depend on the order of their arguments.
pub proof fn law_integer_arithmetic(st: SState, a: i64, b: i64, at: SourcePos, bt: SourcePos, pos: SourcePos)
    ensures
        ({
            let x = arg(SValue::Integer(a), at);
            let y = arg(SValue::Integer(b), bt);
            &&& i64::MIN <= a + b <= i64::MAX ==> call2(st, Builtin::Add, x, y, pos)
                == Ok::<SValue, ErrorView>(SValue::Integer((a + b) as i64))
            &&& i64::MIN <= a - b <= i64::MAX ==> call2(st, Builtin::Subtract, x, y, pos)
                == Ok::<SValue, ErrorView>(SValue::Integer((a - b) as i64))
            &&& i64::MIN <= a * b <= i64::MAX ==> call2(st, Builtin::Multiply, x, y, pos)
                == Ok::<SValue, ErrorView>(SValue::Integer((a * b) as i64))
            &&& a != i64::MIN ==> call1(st, Builtin::Subtract, x, pos) == Ok::<SValue, ErrorView>(SValue::Integer((-a) as i64))
            &&& call2(st, Builtin::Add, x, y, pos) == call2(st, Builtin::Add, y, x, pos)
            &&& call2(st, Builtin::Multiply, x, y, pos) == call2(st, Builtin::Multiply, y, x, pos)
            &&& builtin_call(st, Builtin::Add, Seq::empty(), pos) == (st, Ok::<SValue, ErrorView>(SValue::Integer(0)))
            &&& builtin_call(st, Builtin::Multiply, Seq::empty(), pos) == (st, Ok::<SValue, ErrorView>(SValue::Integer(1)))
        }),
{
    reveal_with_fuel(fold_ints, 3);
    assert(a * b == b * a) by (nonlinear_arith);
    let p = a * b;
    if i64::MIN <= p <= i64::MAX {
        assert(a.wrapping_mul(b) == p as i64);
    }
    assert(1i64.wrapping_mul(a) == a);
    assert(1i64.wrapping_mul(b) == b);
}

/// The comparisons `<`, `>`, `=`, `<=` and `>=` on two integers say how the
/// integers compare, and on three whether both neighbouring pairs do.
pub proof fn law_integer_comparisons(st: SState, a: i64, b: i64, c: i64, at: SourcePos, bt: SourcePos, ct: SourcePos, pos: SourcePos)
    ensures
        ({
            let x = arg(SValue::Integer(a), at);
            let y = arg(SValue::Integer(b), bt);
            let z = arg(SValue::Integer(c), ct);
            &&& call2(st, Builtin::LessThan, x, y, pos) == Ok::<SValue, ErrorView>(SValue::Boolean(a < b))
            &&& call2(st, Builtin::GreaterThan, x, y, pos) == Ok::<SValue, ErrorView>(SValue::Boolean(a > b))
            &&& call2(st, Builtin::Equal, x, y, pos) == Ok::<SValue, ErrorView>(SValue::Boolean(a == b))
            &&& call2(st, Builtin::LessEqual, x, y, pos) == Ok::<SValue, ErrorView>(SValue::Boolean(a <= b))
            &&& call2(st, Builtin::GreaterEqual, x, y, pos) == Ok::<SValue, ErrorView>(SValue::Boolean(a >= b))
            &&& builtin_call(st, Builtin::LessThan, seq![x, y, z], pos).1 == Ok::<SValue, ErrorView>(SValue::Boolean(a < b && b < c))
            &&& builtin_call(st, Builtin::LessEqual, seq![x, y, z], pos).1 == Ok::<SValue, ErrorView>(SValue::Boolean(a <= b && b <= c))
        }),
{
    reveal_with_fuel(compare_from, 3);
}

/// `abs` gives the magnitude of every integer but `i64::MIN`; `min` and `max`
/// give the lesser and the greater of two integers.
pub proof fn law_abs_min_max(st: SState, a: i64, b: i64, at: SourcePos, bt: SourcePos, pos: SourcePos)
    ensures
        ({
            let x = arg(SValue::Integer(a), at);
            let y = arg(SValue::Integer(b), bt);
            &&& a != i64::MIN ==> call1(st, Builtin::Abs, x, pos) == Ok::<SValue, ErrorView>(
                SValue::Integer(if a < 0 { (-a) as i64 } else { a }),
            )
            &&& call2(st, Builtin::Min, x, y, pos) == Ok::<SValue, ErrorView>(SValue::Integer(if a <= b { a } else { b }))
            &&& call2(st, Builtin::Max, x, y, pos) == Ok::<SValue, ErrorView>(SValue::Integer(if a >= b { a } else { b }))
        }),
{
    reveal_with_fuel(fold_ints, 2);
}

/// `quotient`, `remainder` and `modulo` divide as integers do: the quotient
/// times the divisor plus the remainder is the dividend, the remainder is
/// smaller than the divisor in size and has the dividend's sign, and the
/// modulo is the remainder moved, by the divisor, to the divisor's sign.
/// `/` on two integers is `quotient`, and a zero divisor is an error.
pub proof fn law_integer_division(st: SState, a: i64, d: i64, at: SourcePos, dt: SourcePos, pos: SourcePos)
    ensures
        ({
            let x = arg(SValue::Integer(a), at);
            let y = arg(SValue::Integer(d), dt);
            &&& call2(st, Builtin::Divide, x, y, pos) == call2(st, Builtin::Quotient, x, y, pos)
            &&& d == 0 ==> call2(st, Builtin::Quotient, x, y, pos) is Err && call2(st, Builtin::Remainder, x, y, pos) is Err
                && call2(st, Builtin::Modulo, x, y, pos) is Err
            &&& (d != 0 && !(a == i64::MIN && d == -1)) ==> {
                &&& call2(st, Builtin::Quotient, x, y, pos) matches Ok(SValue::Integer(q))
                &&& call2(st, Builtin::Remainder, x, y, pos) matches Ok(SValue::Integer(r))
                &&& call2(st, Builtin::Modulo, x, y, pos) matches Ok(SValue::Integer(m))
                &&& a == q * d + r
                &&& (if r < 0 { -(r as int) } else { r as int }) < (if d < 0 { -(d as int) } else { d as int })
                &&& (r == 0 || (r < 0) == (a < 0))
                &&& (m == r || m == r + d)
                &&& (d > 0 ==> 0 <= m < d)
                &&& (d < 0 ==> d < m <= 0)
            }
        }),
{
    reveal_with_fuel(div_fold, 2);
    let x = arg(SValue::Integer(a), at);
    let y = arg(SValue::Integer(d), dt);
    assert(call2(st, Builtin::Divide, x, y, pos) == call2(st, Builtin::Quotient, x, y, pos));
    if d != 0 && !(a == i64::MIN && d == -1) {
        lemma_truncated_division(a as int, d as int);
        assert(a.checked_div(d) is Some);
        assert(a.checked_rem(d) is Some);
        let q = a.checked_div(d)->Some_0;
        let r = a.checked_rem(d)->Some_0;
        assert(a == q * d + r);
    }
}

/// Division rounding toward zero, as `checked_div` and `checked_rem` give it.
proof fn lemma_truncated_division(x: int, d: int)
    requires
        d != 0,
    ensures
        ({
            let q = if x == 0 {
                0
            } else if x > 0 && d > 0 {
                x / d
            } else if x < 0 && d < 0 {
                (x * -1) / (d * -1)
            } else if x < 0 {
                ((x * -1) / d) * -1
            } else {
                (x / (d * -1)) * -1
            };
            let r = if x == 0 {
                0
            } else if x > 0 && d > 0 {
                x % d
            } else if x < 0 && d < 0 {
                ((x * -1) % (d * -1)) * -1
            } else if x < 0 {
                ((x * -1) % d) * -1
            } else {
                x % (d * -1)
            };
            &&& x == q * d + r
            &&& (if r < 0 { -r } else { r }) < (if d < 0 { -d } else { d })
            &&& (r == 0 || (r < 0) == (x < 0))
            &&& (if q < 0 { -q } else { q }) <= (if x < 0 { -x } else { x })
            &&& ((if d < 0 { -d } else { d }) >= 2 ==> 2 * (if q < 0 { -q } else { q }) <= (if x < 0 { -x } else { x }))
            &&& (d == 1 ==> q == x)
            &&& (d == -1 ==> q == -x)
        }),
{
    let ax = if x < 0 { -x } else { x };
    let ad = if d < 0 { -d } else { d };
    assert(ax == ad * (ax / ad) + ax % ad && 0 <= ax % ad < ad && 0 <= ax / ad <= ax) by (nonlinear_arith)
        requires ad > 0, ax >= 0;
    assert(ad >= 2 ==> 2 * (ax / ad) <= ax) by (nonlinear_arith)
        requires ad > 0, ax >= 0, ax == ad * (ax / ad) + ax % ad, 0 <= ax % ad;
    assert(ad == 1 ==> ax / ad == ax && ax % ad == 0) by (nonlinear_arith)
        requires ad > 0, ax >= 0, ax == ad * (ax / ad) + ax % ad, 0 <= ax % ad < ad;
    if x > 0 && d > 0 {
    } else if x < 0 && d < 0 {
        assert((x * -1) == ax && (d * -1) == ad);
        assert(x == (ax / ad) * d + (ax % ad) * -1) by (nonlinear_arith)
            requires x == -ax, d == -ad, ax == ad * (ax / ad) + ax % ad;
    } else if x < 0 {
        assert((x * -1) == ax && d == ad);
        assert(x == ((ax / ad) * -1) * d + (ax % ad) * -1) by (nonlinear_arith)
            requires x == -ax, d == ad, ax == ad * (ax / ad) + ax % ad;
    } else if x > 0 {
        assert(x == ax && (d * -1) == ad);
        assert(x == ((ax / ad) * -1) * d + ax % ad) by (nonlinear_arith)
            requires x == ax, d == -ad, ax == ad * (ax / ad) + ax % ad;
    }
}

/// `car` and `cdr` take apart what `cons` puts together: `cons` of `x` and
/// a list gives a list one longer, whose `car` is `x` and whose `cdr` is the
/// list.
pub proof fn law_cons_car_cdr(st: SState, x: SValue, vs: Seq<SValue>, at: SourcePos, lt: SourcePos, pos: SourcePos)
    ensures
        call2(st, Builtin::Cons, arg(x, at), arg(SValue::List(vs), lt), pos) matches Ok(SValue::List(ws)) && ws.len()
            == vs.len() + 1 && call1(st, Builtin::Car, arg(SValue::List(ws), at), pos) == Ok::<SValue, ErrorView>(x)
            && call1(st, Builtin::Cdr, arg(SValue::List(ws), at), pos) == Ok::<SValue, ErrorView>(SValue::List(vs))
            && call1(st, Builtin::Length, arg(SValue::List(ws), at), pos) == call2(
            st,
            Builtin::Add,
            arg(SValue::Integer(1), at),
            arg(SValue::Integer(vs.len() as i64), at),
            pos,
        ) || vs.len() >= i64::MAX,
        call1(st, Builtin::Car, arg(SValue::List(Seq::empty()), at), pos) is Err,
        call1(st, Builtin::Cdr, arg(SValue::List(Seq::empty()), at), pos) is Err,
{
    let ws = seq![x] + vs;
    assert(ws.skip(1) =~= vs);
    reveal_with_fuel(fold_ints, 3);
}

/// `list` gives the list of its arguments, and `length` counts them.
pub proof fn law_list_and_length(st: SState, args: Seq<SArg>, pos: SourcePos, at: SourcePos)
    requires
        args.len() <= i64::MAX,
    ensures
        builtin_call(st, Builtin::List, args, pos) matches (st1, Ok(SValue::List(vs))) && st1 == st && vs.len() == args.len()
            && (forall|i: int| 0 <= i < args.len() ==> vs[i] == #[trigger] args[i].value)
            && call1(st, Builtin::Length, arg(SValue::List(vs), at), pos) == Ok::<SValue, ErrorView>(SValue::Integer(args.len() as i64)),
{
}

/// `(list-tail l k)` drops the first `k` elements, and `(list-ref l k)` is the
/// `car` of what is left.
pub proof fn law_list_tail_and_ref(st: SState, vs: Seq<SValue>, k: i64, at: SourcePos, kt: SourcePos, pos: SourcePos)
    requires
        0 <= k <= vs.len(),
    ensures
        call2(st, Builtin::ListTail, arg(SValue::List(vs), at), arg(SValue::Integer(k), kt), pos)
            == Ok::<SValue, ErrorView>(SValue::List(vs.skip(k as int))),
        k < vs.len() ==> call2(st, Builtin::ListRef, arg(SValue::List(vs), at), arg(SValue::Integer(k), kt), pos)
            == call1(st, Builtin::Car, arg(SValue::List(vs.skip(k as int)), at), pos),
{
    if k == 0 {
        assert(vs.skip(0) =~= vs);
    }
}

/// `null?` holds of the empty list alone, `pair?` of a non-empty list, and
/// `not` of `#f` alone.
pub proof fn law_null_pair_not(st: SState, v: SValue, at: SourcePos, pos: SourcePos)
    ensures
        call1(st, Builtin::NullPredicate, arg(v, at), pos) == Ok::<SValue, ErrorView>(
            SValue::Boolean(v == SValue::List(Seq::empty())),
        ),
        call1(st, Builtin::PairPredicate, arg(v, at), pos) == Ok::<SValue, ErrorView>(
            SValue::Boolean(v is List && v != SValue::List(Seq::empty())),
        ),
        call1(st, Builtin::Not, arg(v, at), pos) == Ok::<SValue, ErrorView>(SValue::Boolean(v == SValue::Boolean(false))),
{
    if v is List && v->List_0.len() == 0 {
        assert(v->List_0 =~= Seq::<SValue>::empty());
    }
}

/// `string-length` counts a string's characters, `string-ref` reads the one
/// at an index, and `substring` makes a new string of the characters from
/// `i` up to `j`.
pub proof fn law_string_access(st: SState, h: usize, i: i64, j: i64, at: SourcePos, it: SourcePos, jt: SourcePos, pos: SourcePos)
    requires
        h < st.strings.len(),
        st.strings[h as int].len() <= i64::MAX,
    ensures
        ({
            let s = st.strings[h as int];
            let x = arg(SValue::Str(h), at);
            &&& call1(st, Builtin::StringLength, x, pos) == Ok::<SValue, ErrorView>(SValue::Integer(s.len() as i64))
            &&& 0 <= i < s.len() ==> call2(st, Builtin::StringRef, x, arg(SValue::Integer(i), it), pos)
                == Ok::<SValue, ErrorView>(SValue::Character(s[i as int]))
            &&& 0 <= i <= j <= s.len() ==> {
                let (st2, r) = builtin_call(st, Builtin::Substring, seq![x, arg(SValue::Integer(i), it), arg(SValue::Integer(j), jt)], pos);
                &&& r == Ok::<SValue, ErrorView>(SValue::Str(st.strings.len() as usize))
                &&& st2.strings == st.strings.push(s.subrange(i as int, j as int))
            }
        }),
{
}

/// `string-append` of two strings makes a new string of the first's
/// characters followed by the second's.
pub proof fn law_string_append_two(st: SState, ha: usize, hb: usize, at: SourcePos, bt: SourcePos, pos: SourcePos)
    requires
        ha < st.strings.len(),
        hb < st.strings.len(),
    ensures
        ({
            let (st2, r) = builtin_call(st, Builtin::StringAppend, seq![arg(SValue::Str(ha), at), arg(SValue::Str(hb), bt)], pos);
            &&& r == Ok::<SValue, ErrorView>(SValue::Str(st.strings.len() as usize))
            &&& st2.strings == st.strings.push(st.strings[ha as int] + st.strings[hb as int])
            &&& st2.frames == st.frames
            &&& st2.output == st.output
        }),
{
    reveal_with_fuel(string_append_from, 3);
    assert(Seq::<char>::empty() + st.strings[ha as int] =~= st.strings[ha as int]);
}

/// `char=?` and `char<?` compare characters by their codes, and
/// `char->integer` gives that code.
pub proof fn law_character_order(st: SState, a: char, b: char, at: SourcePos, bt: SourcePos, pos: SourcePos)
    ensures
        call2(st, Builtin::CharEqual, arg(SValue::Character(a), at), arg(SValue::Character(b), bt), pos)
            == Ok::<SValue, ErrorView>(SValue::Boolean(a == b)),
        call2(st, Builtin::CharLess, arg(SValue::Character(a), at), arg(SValue::Character(b), bt), pos)
            == Ok::<SValue, ErrorView>(SValue::Boolean((a as int) < (b as int))),
        call1(st, Builtin::CharToInteger, arg(SValue::Character(a), at), pos) == Ok::<SValue, ErrorView>(
            SValue::Integer((a as int) as i64),
        ),
        (a as int) < (b as int) || (b as int) < (a as int) || a == b,
{
}

/// `eqv?` and `eq?` on integers are equality; on strings `eqv?` asks
/// whether they are the same string, while `equal?` asks whether their texts
/// are the same.
pub proof fn law_eqv_and_equal(st: SState, a: i64, b: i64, ha: usize, hb: usize, at: SourcePos, bt: SourcePos, pos: SourcePos)
    requires
        ha < st.strings.len(),
        hb < st.strings.len(),
    ensures
        call2(st, Builtin::EqvPredicate, arg(SValue::Integer(a), at), arg(SValue::Integer(b), bt), pos)
            == Ok::<SValue, ErrorView>(SValue::Boolean(a == b)),
        call2(st, Builtin::EqPredicate, arg(SValue::Integer(a), at), arg(SValue::Integer(b), bt), pos)
            == Ok::<SValue, ErrorView>(SValue::Boolean(a == b)),
        call2(st, Builtin::EqvPredicate, arg(SValue::Str(ha), at), arg(SValue::Str(hb), bt), pos)
            == Ok::<SValue, ErrorView>(SValue::Boolean(ha == hb)),
        call2(st, Builtin::EqualPredicate, arg(SValue::Str(ha), at), arg(SValue::Str(hb), bt), pos)
            == Ok::<SValue, ErrorView>(SValue::Boolean(st.strings[ha as int] == st.strings[hb as int])),
{
}

/// `expt` multiplies: `(expt b 0)` is 1, and `(expt b (+ e 1))` is
/// `(* (expt b e) b)`; a negative exponent gives 0.
pub proof fn law_expt_multiplies(st: SState, b: i64, e: i64, at: SourcePos, et: SourcePos, pos: SourcePos)
    requires
        0 <= e < u32::MAX,
    ensures
        call2(st, Builtin::Expt, arg(SValue::Integer(b), at), arg(SValue::Integer(0), et), pos) == Ok::<SValue, ErrorView>(SValue::Integer(1)),
        call2(st, Builtin::Expt, arg(SValue::Integer(b), at), arg(SValue::Integer(-1i64), et), pos) == Ok::<SValue, ErrorView>(SValue::Integer(0)),
        call2(st, Builtin::Expt, arg(SValue::Integer(b), at), arg(SValue::Integer(e), et), pos) matches Ok(p) && call2(
            st,
            Builtin::Expt,
            arg(SValue::Integer(b), at),
            arg(SValue::Integer((e + 1) as i64), et),
            pos,
        ) == call2(st, Builtin::Multiply, arg(p, at), arg(SValue::Integer(b), at), pos),
{
    reveal_with_fuel(fold_ints, 3);
    assert((e as u32) as nat == e as nat);
    assert(((e + 1) as i64 as u32) as nat == e as nat + 1);
    let p = super::builtins::pow_wrapping(b, e as nat);
    assert(1i64.wrapping_mul(p) == p);
    assert((0u32 as nat) == 0);
}

/// `char-upcase` turns each lower-case ASCII letter into its upper-case
/// letter (26 codes lower) and leaves every other character as it is, and
/// `char-downcase` undoes it.
pub proof fn law_char_case(st: SState, c: char, at: SourcePos, pos: SourcePos)
    ensures
        ('a' <= c && c <= 'z') ==> (call1(st, Builtin::CharUpcase, arg(SValue::Character(c), at), pos) matches Ok(SValue::Character(u))
            && (u as int) == (c as int) - 32 && 'A' <= u && u <= 'Z' && call1(
            st,
            Builtin::CharDowncase,
            arg(SValue::Character(u), at),
            pos,
        ) == Ok::<SValue, ErrorView>(SValue::Character(c))),
        !('a' <= c && c <= 'z') ==> call1(st, Builtin::CharUpcase, arg(SValue::Character(c), at), pos)
            == Ok::<SValue, ErrorView>(SValue::Character(c)),
        !('A' <= c && c <= 'Z') ==> call1(st, Builtin::CharDowncase, arg(SValue::Character(c), at), pos)
            == Ok::<SValue, ErrorView>(SValue::Character(c)),
{
    if 'a' <= c && c <= 'z' {
        let u = ((c as int) - 32) as char;
        assert((u as int) == (c as int) - 32);
        assert(((u as int) + 32) as char == c);
    }
}

/// `string->symbol` then `symbol->string` gives a new string with the same
/// text.
pub proof fn law_symbol_string_round_trip(st: SState, h: usize, at: SourcePos, pos: SourcePos)
    requires
        h < st.strings.len(),
    ensures
        call1(st, Builtin::StringToSymbol, arg(SValue::Str(h), at), pos) == Ok::<SValue, ErrorView>(SValue::Symbol(st.strings[h as int])),
        ({
            let (st2, r) = builtin_call(st, Builtin::SymbolToString, seq![arg(SValue::Symbol(st.strings[h as int]), at)], pos);
            &&& r == Ok::<SValue, ErrorView>(SValue::Str(st.strings.len() as usize))
            &&& st2.strings == st.strings.push(st.strings[h as int])
        }),
{
}

/// `newline` writes one line break and nothing else.
pub proof fn law_newline_writes_a_line_break(st: SState, pos: SourcePos)
    ensures
        builtin_call(st, Builtin::Newline, Seq::empty(), pos) == (
            SState { output: st.output.push('\n'), ..st },
            Ok::<SValue, ErrorView>(SValue::Void),
        ),
{
}

/// A list is written as its elements, each as it is written alone, between
/// parentheses and separated by single spaces; the empty list as `()`.
pub proof fn law_lists_are_written_in_parentheses(a: SValue, b: SValue, strings: Seq<Seq<char>>, display: bool)
    ensures
        render(SValue::List(Seq::empty()), strings, display) == seq!['(', ')'],
        render(SValue::List(seq![a]), strings, display) == seq!['('] + render(a, strings, display) + seq![')'],
        render(SValue::List(seq![a, b]), strings, display) == seq!['('] + render(a, strings, display) + seq![' ']
            + render(b, strings, display) + seq![')'],
{
    reveal_strlit("()");
    let two = seq![a, b];
    assert(two.drop_last() =~= seq![a]);
    assert(super::value::render_items(seq![a], strings, display) == render(a, strings, display));
    assert(super::value::render_items(two, strings, display) == render(a, strings, display) + seq![' '] + render(b, strings, display));
}

/// The type predicates: `number?` and `integer?` hold of integers,
/// `string?` of strings, `symbol?` of symbols, `boolean?` of booleans,
/// `char?` of characters and `procedure?` of primitives and procedures, and
/// each of nothing else.
pub proof fn law_type_predicates(st: SState, v: SValue, at: SourcePos, pos: SourcePos)
    ensures
        call1(st, Builtin::NumberPredicate, arg(v, at), pos) == Ok::<SValue, ErrorView>(SValue::Boolean(v is Integer)),
        call1(st, Builtin::IntegerPredicate, arg(v, at), pos) == Ok::<SValue, ErrorView>(SValue::Boolean(v is Integer)),
        call1(st, Builtin::StringPredicate, arg(v, at), pos) == Ok::<SValue, ErrorView>(SValue::Boolean(v is Str)),
        call1(st, Builtin::SymbolPredicate, arg(v, at), pos) == Ok::<SValue, ErrorView>(SValue::Boolean(v is Symbol)),
        call1(st, Builtin::BooleanPredicate, arg(v, at), pos) == Ok::<SValue, ErrorView>(SValue::Boolean(v is Boolean)),
        call1(st, Builtin::CharPredicate, arg(v, at), pos) == Ok::<SValue, ErrorView>(SValue::Boolean(v is Character)),
        call1(st, Builtin::ProcedurePredicate, arg(v, at), pos) == Ok::<SValue, ErrorView>(
            SValue::Boolean(v is Builtin || v is Closure),
        ),
        call1(st, Builtin::ListPredicate, arg(v, at), pos) == Ok::<SValue, ErrorView>(SValue::Boolean(v is List)),
{
}

/// `string-copy` makes a new string with the same text; `string` makes one
/// of its character arguments.
pub proof fn law_string_copy_and_string(st: SState, h: usize, a: char, b: char, at: SourcePos, bt: SourcePos, pos: SourcePos)
    requires
        h < st.strings.len(),
    ensures
        ({
            let (st2, r) = builtin_call(st, Builtin::StringCopy, seq![arg(SValue::Str(h), at)], pos);
            &&& r == Ok::<SValue, ErrorView>(SValue::Str(st.strings.len() as usize))
            &&& st2.strings == st.strings.push(st.strings[h as int])
        }),
        ({
            let (st2, r) = builtin_call(
                st,
                Builtin::StringFromChars,
                seq![arg(SValue::Character(a), at), arg(SValue::Character(b), bt)],
                pos,
            );
            &&& r == Ok::<SValue, ErrorView>(SValue::Str(st.strings.len() as usize))
            &&& st2.strings == st.strings.push(seq![a, b])
        }),
{
    reveal_with_fuel(super::builtins::char_args_from, 3);
    assert(Seq::<char>::empty().push(a).push(b) =~= seq![a, b]);
}

/// `k * g`.
pub open spec fn times(k: int, g: int) -> int {
    k * g
}

/// Whether `x` is a whole multiple of `g`.
pub open spec fn divides(g: int, x: int) -> bool {
    exists|k: int| #[trigger] times(k, g) == x
}

/// The greatest common divisor of two naturals divides both, and is no
/// larger than the larger of them.
proof fn lemma_gcd_divides(a: nat, b: nat) -> (ks: (int, int))
    ensures
        a == ks.0 * super::builtins::gcd_nat(a, b),
        b == ks.1 * super::builtins::gcd_nat(a, b),
        super::builtins::gcd_nat(a, b) <= if a >= b { a } else { b },
    decreases b,
{
    if b == 0 {
        assert(a == 1 * a);
        (1, 0)
    } else {
        let g: int = super::builtins::gcd_nat(b, a % b) as int;
        let (k1, k2) = lemma_gcd_divides(b, a % b);
        let ai: int = a as int;
        let bi: int = b as int;
        let q: int = ai / bi;
        let r: int = ai % bi;
        vstd::arithmetic::div_mod::lemma_fundamental_div_mod(ai, bi);
        assert(ai == bi * q + r);
        assert(r == (a % b) as int);
        assert(ai == (q * k1 + k2) * g) by (nonlinear_arith)
            requires ai == bi * q + r, bi == k1 * g, r == k2 * g;
        (q * k1 + k2, k1)
    }
}

/// `gcd` of two integers other than `i64::MIN` is a non-negative integer
/// that divides both.
pub proof fn law_gcd_divides_both(st: SState, a: i64, b: i64, at: SourcePos, bt: SourcePos, pos: SourcePos)
    ensures
        ({
            let r = call2(st, Builtin::Gcd, arg(SValue::Integer(a), at), arg(SValue::Integer(b), bt), pos);
            &&& r is Ok && r->Ok_0 is Integer
            &&& (a != i64::MIN && b != i64::MIN) ==> r->Ok_0->Integer_0 >= 0 && divides(r->Ok_0->Integer_0 as int, a as int)
                && divides(r->Ok_0->Integer_0 as int, b as int)
        }),
{
    let ma = super::builtins::magnitude(a);
    let mb = super::builtins::magnitude(b);
    let (k1, k2) = lemma_gcd_divides(ma, mb);
    let gn = super::builtins::gcd_nat(ma, mb);
    if a != i64::MIN && b != i64::MIN {
        assert(gn <= i64::MAX);
        let g: int = gn as int;
        assert((gn as i64) as int == g);
        let s1: int = if a < 0 { -k1 } else { k1 };
        let s2: int = if b < 0 { -k2 } else { k2 };
        let ai: int = a as int;
        let bi: int = b as int;
        let mai: int = ma as int;
        let mbi: int = mb as int;
        assert(mai == k1 * g);
        assert(mbi == k2 * g);
        assert(ai == s1 * g) by (nonlinear_arith)
            requires mai == k1 * g, mai == (if ai < 0 { -ai } else { ai }), s1 == (if ai < 0 { -k1 } else { k1 });
        assert(bi == s2 * g) by (nonlinear_arith)
            requires mbi == k2 * g, mbi == (if bi < 0 { -bi } else { bi }), s2 == (if bi < 0 { -k2 } else { k2 });
        assert(times(s1, g) == ai);
        assert(times(s2, g) == bi);
    }
}

/// `make-string` makes a new string of `n` copies of its character.
pub proof fn law_make_string(st: SState, n: i64, c: char, at: SourcePos, ct: SourcePos, pos: SourcePos)
    requires
        n >= 0,
    ensures
        ({
            let (st2, r) = builtin_call(st, Builtin::MakeString, seq![arg(SValue::Integer(n), at), arg(SValue::Character(c), ct)], pos);
            &&& r == Ok::<SValue, ErrorView>(SValue::Str(st.strings.len() as usize))
            &&& st2.strings.len() == st.strings.len() + 1
            &&& st2.strings.last().len() == n
            &&& forall|i: int| 0 <= i < n ==> #[trigger] st2.strings.last()[i] == c
        }),
        call1(st, Builtin::MakeString, arg(SValue::Integer(-1i64), at), pos) is Err,
{
}

/// `integer->char` and `char->integer` undo each other: a character's code
/// gives the character back, and a code that is a Unicode scalar value gives
/// a character with that code.
pub proof fn law_char_code_round_trip(st: SState, c: char, u: i64, at: SourcePos, pos: SourcePos)
    ensures
        call1(st, Builtin::IntegerToChar, arg(SValue::Integer((c as int) as i64), at), pos) == Ok::<SValue, ErrorView>(
            SValue::Character(c),
        ),
        (0 <= u <= 0xD7FF || (0xE000 <= u <= 0x10FFFF)) ==> (call1(st, Builtin::IntegerToChar, arg(SValue::Integer(u), at), pos) is Ok
            && call1(st, Builtin::CharToInteger, arg(call1(st, Builtin::IntegerToChar, arg(SValue::Integer(u), at), pos)->Ok_0, at), pos)
            == Ok::<SValue, ErrorView>(SValue::Integer(u))),
{
    let n = (c as int) as i64;
    assert(n as int == c as int);
    assert((n as u32) as int == c as int);
    assert(((n as u32) as char) == c);
}

/// `char-numeric?` holds of the ten decimal digits alone.
pub proof fn law_char_numeric(st: SState, c: char, at: SourcePos, pos: SourcePos)
    ensures
        call1(st, Builtin::CharNumeric, arg(SValue::Character(c), at), pos) == Ok::<SValue, ErrorView>(
            SValue::Boolean((c as int) >= ('0' as int) && (c as int) <= ('9' as int)),
        ),
{
}

/// How simple values are written and displayed: booleans as `#t` and `#f`,
/// a symbol as its name, a character displayed as itself and written with
/// `#\` before it (a letter or digit), and nothing distinguishes `display`
/// from `write` for booleans, symbols and integers.
pub proof fn law_simple_values_render(strings: Seq<Seq<char>>, name: Seq<char>, c: char, n: i64, display: bool)
    ensures
        render(SValue::Boolean(true), strings, display) == seq!['#', 't'],
        render(SValue::Boolean(false), strings, display) == seq!['#', 'f'],
        render(SValue::Symbol(name), strings, display) == name,
        render(SValue::Character(c), strings, true) == seq![c],
        (('a' <= c && c <= 'z') || ('0' <= c && c <= '9')) ==> render(SValue::Character(c), strings, false) == seq!['#', '\\', c],
        render(SValue::Integer(n), strings, true) == render(SValue::Integer(n), strings, false),
{
    reveal_strlit("#t");
    reveal_strlit("#f");
}

/// `error` fails with its message as `display` writes it, followed by each
/// other argument after a space; alone, with the text `error`.
pub proof fn law_error_reports_its_arguments(st: SState, h: usize, n: i64, at: SourcePos, nt: SourcePos)
    requires
        h < st.strings.len(),
    ensures
        builtin_call(st, Builtin::Error, seq![arg(SValue::Str(h), at)], at) == (
            st,
            Err::<SValue, ErrorView>(ErrorView::Message(st.strings[h as int])),
        ),
        builtin_call(st, Builtin::Error, seq![arg(SValue::Str(h), at), arg(SValue::Integer(n), nt)], at) == (
            st,
            Err::<SValue, ErrorView>(ErrorView::Message(st.strings[h as int] + seq![' '] + render(SValue::Integer(n), st.strings, true))),
        ),
{
    let args = seq![arg(SValue::Str(h), at), arg(SValue::Integer(n), nt)];
    assert(super::builtins::irritants_text(seq![arg(SValue::Str(h), at)], 1, st.strings) == Seq::<char>::empty());
    assert(st.strings[h as int] + Seq::<char>::empty() =~= st.strings[h as int]);
    assert(super::builtins::irritants_text(args, 1, st.strings) == Seq::<char>::empty());
    reveal_strlit(" ");
    assert(Seq::<char>::empty() + " "@ + render(SValue::Integer(n), st.strings, true) =~= seq![' '] + render(SValue::Integer(n), st.strings, true));
    assert(st.strings[h as int] + (seq![' '] + render(SValue::Integer(n), st.strings, true)) =~= st.strings[h as int] + seq![' '] + render(SValue::Integer(n), st.strings, true));
}

/// `lambda` makes a procedure of its parameters and body that remembers the
/// environment it was made in, and changes nothing.
pub proof fn law_lambda_captures_its_environment(
    st: SState,
    items: Seq<SExpr>,
    pos: SourcePos,
    env: usize,
    d: nat,
    p: SourcePos,
    x: Seq<char>,
    q: SourcePos,
    lp: SourcePos,
    body: SExpr,
)
    requires
        items == seq![SExpr::Symbol("lambda"@, p), SExpr::List(seq![SExpr::Symbol(x, q)], lp), body],
        x != "."@,
    ensures
        eval_list(st, items, pos, env, d) == (st, Ok::<SValue, ErrorView>(SValue::Closure(seq![x], seq![body], env))),
{
    lemma_form_names();
    let args = items.skip(1);
    assert(args[0] == items[1]);
    assert(args.skip(1) =~= seq![body]);
    assert(Seq::<Seq<char>>::empty().push(x) =~= seq![x]);
    let ps = seq![SExpr::Symbol(x, q)];
    assert(super::semantics::parse_params(ps, 1, seq![x]) == Ok::<Seq<Seq<char>>, ErrorView>(seq![x]));
    assert(super::semantics::parse_params(ps, 0, Seq::empty()) == Ok::<Seq<Seq<char>>, ErrorView>(seq![x]));
    assert(super::semantics::eval_lambda(args, env, p) == Ok::<SValue, ErrorView>(SValue::Closure(seq![x], seq![body], env)));
}

} // verus!
