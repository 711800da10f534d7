//! The primitive procedures: what each computes from its evaluated arguments,
//! and their implementation.
use vstd::prelude::*;

use super::equality::{equal, eqv, is_equal, is_eqv, lemma_value_ok_strings_within};
use super::env::{alloc_string, grows, lemma_alloc_ok, lemma_grows_refl, state_ok, Interpreter, SState};
use super::value::strings_view;
use super::error::{arity_error, error_at, type_error, ErrorView, EvalError};
use super::position::SourcePos;
use super::text::{chars_eq, chars_to_string, i64_text, int_text, is_digit, is_digit_char, parse_i64, parse_i64_chars, push_all, push_str, str_chars};
use super::value::{
    copy_values_from, lemma_value_ok_item, lemma_value_ok_list, lemma_values_view,
    lemma_values_view_push, render, truthy, value_ok, values_ok, values_view, builtin_name, Builtin, SValue,
    Value,
};

verus! {

/// An evaluated argument and the position of the expression it came from.
pub struct SArg {
    pub value: SValue,
    pub pos: SourcePos,
}

/// An evaluated argument and the position of the expression it came from.
#[derive(Debug)]
pub struct Arg {
    pub value: Value,
    pub pos: SourcePos,
}

impl View for Arg {
    type V = SArg;

    open spec fn view(&self) -> SArg {
        SArg { value: self.value@, pos: self.pos }
    }
}

pub open spec fn args_view(args: Seq<Arg>) -> Seq<SArg> {
    args.map_values(|a: Arg| a@)
}

pub open spec fn arg_values(args: Seq<SArg>) -> Seq<SValue> {
    Seq::new(args.len(), |i: int| args[i].value)
}

pub open spec fn args_ok(args: Seq<SArg>, st: SState) -> bool {
    forall|i: int| 0 <= i < args.len() ==> value_ok(#[trigger] args[i].value, st.frames.len(), st.strings.len())
}

/// What a step of evaluation leaves: the new state, and a value or an error.
pub type Outcome = (SState, Result<SValue, ErrorView>);

pub open spec fn value_result(r: Result<Value, EvalError>) -> Result<SValue, ErrorView> {
    match r {
        Ok(v) => Ok(v@),
        Err(e) => Err(e@),
    }
}

pub open spec fn err_view<T>(r: Result<T, EvalError>) -> Result<T, ErrorView> {
    match r {
        Ok(v) => Ok(v),
        Err(e) => Err(e@),
    }
}

pub open spec fn expect_integer(a: SArg, name: Seq<char>) -> Result<i64, ErrorView> {
    match a.value {
        SValue::Integer(v) => Ok(v),
        _ => Err(type_error(a.pos, name + " expects integer arguments"@)),
    }
}

pub open spec fn expect_list(a: SArg, name: Seq<char>) -> Result<Seq<SValue>, ErrorView> {
    match a.value {
        SValue::List(items) => Ok(items),
        _ => Err(type_error(a.pos, name + " expects list arguments"@)),
    }
}

pub open spec fn expect_non_empty_list(a: SArg, name: Seq<char>) -> Result<Seq<SValue>, ErrorView> {
    match expect_list(a, name) {
        Ok(items) => if items.len() == 0 {
            Err(type_error(a.pos, name + " expects a non-empty list"@))
        } else {
            Ok(items)
        },
        Err(e) => Err(e),
    }
}

pub open spec fn expect_string(a: SArg, name: Seq<char>) -> Result<usize, ErrorView> {
    match a.value {
        SValue::Str(h) => Ok(h),
        _ => Err(type_error(a.pos, name + " expects string arguments"@)),
    }
}

pub open spec fn expect_symbol(a: SArg, name: Seq<char>) -> Result<Seq<char>, ErrorView> {
    match a.value {
        SValue::Symbol(s) => Ok(s),
        _ => Err(type_error(a.pos, name + " expects symbol arguments"@)),
    }
}

pub open spec fn expect_character(a: SArg, name: Seq<char>) -> Result<char, ErrorView> {
    match a.value {
        SValue::Character(c) => Ok(c),
        _ => Err(type_error(a.pos, name + " expects character arguments"@)),
    }
}

/// The integer operations of `+`, `-` and `*`, which wrap around on overflow,
/// and those of `min` and `max`.
#[derive(Clone, Copy, PartialEq, Eq, Structural)]
pub enum IntOp {
    Add,
    Sub,
    Mul,
    Min,
    Max,
}

pub open spec fn int_op(op: IntOp, a: i64, b: i64) -> i64 {
    match op {
        IntOp::Add => a.wrapping_add(b),
        IntOp::Sub => a.wrapping_sub(b),
        IntOp::Mul => a.wrapping_mul(b),
        IntOp::Min => if b < a {
            b
        } else {
            a
        },
        IntOp::Max => if b > a {
            b
        } else {
            a
        },
    }
}

/// Folds `op` over the integer arguments from index `i` on; the first
/// argument that is not an integer is an error.
pub open spec fn fold_ints(args: Seq<SArg>, i: int, acc: i64, op: IntOp, name: Seq<char>) -> Result<i64, ErrorView>
    decreases args.len() - i,
{
    if i < 0 || i >= args.len() {
        Ok(acc)
    } else {
        match expect_integer(args[i], name) {
            Ok(v) => fold_ints(args, i + 1, int_op(op, acc, v), op, name),
            Err(e) => Err(e),
        }
    }
}

/// Integer division that rounds toward zero; the one quotient that does not
/// fit, `i64::MIN / -1`, wraps around to `i64::MIN`.
pub open spec fn trunc_div(a: i64, d: i64) -> i64 {
    match a.checked_div(d) {
        Some(q) => q,
        None => i64::MIN,
    }
}

pub open spec fn div_fold(args: Seq<SArg>, i: int, acc: i64) -> Result<i64, ErrorView>
    decreases args.len() - i,
{
    if i < 0 || i >= args.len() {
        Ok(acc)
    } else {
        match expect_integer(args[i], "/"@) {
            Ok(d) => if d == 0 {
                Err(error_at(args[i].pos, "division by zero"@))
            } else {
                div_fold(args, i + 1, trunc_div(acc, d))
            },
            Err(e) => Err(e),
        }
    }
}

/// The comparisons `<`, `>`, `=` and `<=`.
#[derive(Clone, Copy, PartialEq, Eq, Structural)]
pub enum Comparison {
    Lt,
    Gt,
    Eq,
    Le,
    Ge,
}

pub open spec fn comparison_holds(op: Comparison, a: i64, b: i64) -> bool {
    match op {
        Comparison::Lt => a < b,
        Comparison::Gt => a > b,
        Comparison::Eq => a == b,
        Comparison::Le => a <= b,
        Comparison::Ge => a >= b,
    }
}

pub open spec fn comparison_name(op: Comparison) -> Seq<char> {
    match op {
        Comparison::Lt => "<"@,
        Comparison::Gt => ">"@,
        Comparison::Eq => "="@,
        Comparison::Le => "<="@,
        Comparison::Ge => ">="@,
    }
}

/// Checks each neighbouring pair from index `i` on; stops at the first pair
/// that fails, before looking at the arguments after it.
pub open spec fn compare_from(args: Seq<SArg>, i: int, prev: i64, op: Comparison) -> Result<bool, ErrorView>
    decreases args.len() - i,
{
    if i < 0 || i >= args.len() {
        Ok(true)
    } else {
        match expect_integer(args[i], comparison_name(op)) {
            Ok(cur) => if !comparison_holds(op, prev, cur) {
                Ok(false)
            } else {
                compare_from(args, i + 1, cur, op)
            },
            Err(e) => Err(e),
        }
    }
}

pub open spec fn append_from(args: Seq<SArg>, i: int, acc: Seq<SValue>) -> Result<Seq<SValue>, ErrorView>
    decreases args.len() - i,
{
    if i < 0 || i >= args.len() {
        Ok(acc)
    } else {
        match expect_list(args[i], "append"@) {
            Ok(items) => append_from(args, i + 1, acc + items),
            Err(e) => Err(e),
        }
    }
}

pub open spec fn string_append_from(strings: Seq<Seq<char>>, args: Seq<SArg>, i: int, acc: Seq<char>) -> Result<Seq<char>, ErrorView>
    decreases args.len() - i,
{
    if i < 0 || i >= args.len() {
        Ok(acc)
    } else {
        match expect_string(args[i], "string-append"@) {
            Ok(h) => string_append_from(strings, args, i + 1, acc + strings[h as int]),
            Err(e) => Err(e),
        }
    }
}

/// The type tests `string?`, `number?`, `boolean?`, `pair?`, `symbol?`, `char?`,
/// `integer?` and `procedure?`.
#[derive(Clone, Copy, PartialEq, Eq, Structural)]
pub enum Kind {
    String,
    Number,
    Boolean,
    Pair,
    Symbol,
    Char,
    Integer,
    Procedure,
}

pub open spec fn kind_holds(k: Kind, v: SValue) -> bool {
    match k {
        Kind::String => v is Str,
        Kind::Number => v is Integer,
        Kind::Boolean => v is Boolean,
        Kind::Pair => v is List && v->List_0.len() > 0,
        Kind::Symbol => v is Symbol,
        Kind::Char => v is Character,
        Kind::Integer => v is Integer,
        Kind::Procedure => v is Builtin || v is Closure,
    }
}

pub open spec fn kind_name(k: Kind) -> Seq<char> {
    match k {
        Kind::String => "string?"@,
        Kind::Number => "number?"@,
        Kind::Boolean => "boolean?"@,
        Kind::Pair => "pair?"@,
        Kind::Symbol => "symbol?"@,
        Kind::Char => "char?"@,
        Kind::Integer => "integer?"@,
        Kind::Procedure => "procedure?"@,
    }
}

pub open spec fn done(st: SState, r: Result<SValue, ErrorView>) -> Outcome {
    (st, r)
}

pub open spec fn exactly(n: nat) -> Seq<char> {
    if n == 0 {
        "expected exactly 0 arguments"@
    } else if n == 1 {
        "expected exactly 1 argument"@
    } else if n == 2 {
        "expected exactly 2 arguments"@
    } else {
        "expected exactly 3 arguments"@
    }
}

/// `(+ n ...)`, `(* n ...)`
pub open spec fn b_fold(st: SState, args: Seq<SArg>, init: i64, op: IntOp, name: Seq<char>) -> Outcome {
    match fold_ints(args, 0, init, op, name) {
        Ok(t) => done(st, Ok(SValue::Integer(t))),
        Err(e) => done(st, Err(e)),
    }
}

/// `(- n)` negates; `(- n m ...)` subtracts from the first.
pub open spec fn b_subtract(st: SState, args: Seq<SArg>, pos: SourcePos) -> Outcome {
    if args.len() == 0 {
        done(st, Err(arity_error(pos, "-"@, "expected at least 1 argument"@)))
    } else {
        match expect_integer(args[0], "-"@) {
            Ok(first) => if args.len() == 1 {
                done(st, Ok(SValue::Integer(0i64.wrapping_sub(first))))
            } else {
                match fold_ints(args, 1, first, IntOp::Sub, "-"@) {
                    Ok(t) => done(st, Ok(SValue::Integer(t))),
                    Err(e) => done(st, Err(e)),
                }
            },
            Err(e) => done(st, Err(e)),
        }
    }
}

pub open spec fn b_divide(st: SState, args: Seq<SArg>, pos: SourcePos) -> Outcome {
    if args.len() < 2 {
        done(st, Err(arity_error(pos, "/"@, "expected at least 2 arguments"@)))
    } else {
        match expect_integer(args[0], "/"@) {
            Ok(first) => match div_fold(args, 1, first) {
                Ok(t) => done(st, Ok(SValue::Integer(t))),
                Err(e) => done(st, Err(e)),
            },
            Err(e) => done(st, Err(e)),
        }
    }
}

pub open spec fn b_compare(st: SState, args: Seq<SArg>, op: Comparison) -> Outcome {
    if args.len() <= 1 {
        done(st, Ok(SValue::Boolean(true)))
    } else {
        match expect_integer(args[0], comparison_name(op)) {
            Ok(first) => match compare_from(args, 1, first, op) {
                Ok(b) => done(st, Ok(SValue::Boolean(b))),
                Err(e) => done(st, Err(e)),
            },
            Err(e) => done(st, Err(e)),
        }
    }
}

pub open spec fn b_not(st: SState, args: Seq<SArg>, pos: SourcePos) -> Outcome {
    if args.len() != 1 {
        done(st, Err(arity_error(pos, "not"@, exactly(1))))
    } else {
        done(st, Ok(SValue::Boolean(!truthy(args[0].value))))
    }
}

pub open spec fn b_cons(st: SState, args: Seq<SArg>, pos: SourcePos) -> Outcome {
    if args.len() != 2 {
        done(st, Err(arity_error(pos, "cons"@, exactly(2))))
    } else {
        match expect_list(args[1], "cons"@) {
            Ok(items) => done(st, Ok(SValue::List(seq![args[0].value] + items))),
            Err(e) => done(st, Err(e)),
        }
    }
}

pub open spec fn b_car(st: SState, args: Seq<SArg>, pos: SourcePos) -> Outcome {
    if args.len() != 1 {
        done(st, Err(arity_error(pos, "car"@, exactly(1))))
    } else {
        match expect_non_empty_list(args[0], "car"@) {
            Ok(items) => done(st, Ok(items[0])),
            Err(e) => done(st, Err(e)),
        }
    }
}

pub open spec fn b_cdr(st: SState, args: Seq<SArg>, pos: SourcePos) -> Outcome {
    if args.len() != 1 {
        done(st, Err(arity_error(pos, "cdr"@, exactly(1))))
    } else {
        match expect_non_empty_list(args[0], "cdr"@) {
            Ok(items) => done(st, Ok(SValue::List(items.skip(1)))),
            Err(e) => done(st, Err(e)),
        }
    }
}

/// The `car` (when `take_car`) or `cdr` of `v`, whose expression is at `at`.
pub open spec fn list_step(v: SValue, take_car: bool, at: SourcePos) -> Result<SValue, ErrorView> {
    let name = if take_car { "car"@ } else { "cdr"@ };
    match expect_non_empty_list(SArg { value: v, pos: at }, name) {
        Ok(items) => Ok(if take_car { items[0] } else { SValue::List(items.skip(1)) }),
        Err(e) => Err(e),
    }
}

/// The steps of a composed accessor, first applied first: `cadr` takes the
/// `cdr`, then the `car` of that.
pub open spec fn cxr_path(b: Builtin) -> Seq<bool> {
    match b {
        Builtin::Caar => seq![true, true],
        Builtin::Cadr => seq![false, true],
        Builtin::Cdar => seq![true, false],
        Builtin::Cddr => seq![false, false],
        _ => seq![false, false, true],
    }
}

/// The steps of `path` from index `i` on, applied to `v`.
pub open spec fn steps_from(v: SValue, path: Seq<bool>, i: int, at: SourcePos) -> Result<SValue, ErrorView>
    decreases path.len() - i,
{
    if i < 0 || i >= path.len() {
        Ok(v)
    } else {
        match list_step(v, path[i], at) {
            Ok(w) => steps_from(w, path, i + 1, at),
            Err(e) => Err(e),
        }
    }
}

/// `caar`, `cadr`, `cdar`, `cddr` and `caddr`: `car` and `cdr` in turn,
/// each failing as `car` or `cdr` would on the argument.
pub open spec fn b_cxr(st: SState, args: Seq<SArg>, pos: SourcePos, b: Builtin) -> Outcome {
    if args.len() != 1 {
        done(st, Err(arity_error(pos, builtin_name(b), exactly(1))))
    } else {
        match steps_from(args[0].value, cxr_path(b), 0, args[0].pos) {
            Ok(v) => done(st, Ok(v)),
            Err(e) => done(st, Err(e)),
        }
    }
}

pub open spec fn b_null(st: SState, args: Seq<SArg>, pos: SourcePos) -> Outcome {
    if args.len() != 1 {
        done(st, Err(arity_error(pos, "null?"@, exactly(1))))
    } else {
        done(st, Ok(SValue::Boolean(args[0].value is List && args[0].value->List_0.len() == 0)))
    }
}

pub open spec fn b_length(st: SState, args: Seq<SArg>, pos: SourcePos) -> Outcome {
    if args.len() != 1 {
        done(st, Err(arity_error(pos, "length"@, exactly(1))))
    } else {
        match expect_list(args[0], "length"@) {
            Ok(items) => done(st, Ok(SValue::Integer(items.len() as i64))),
            Err(e) => done(st, Err(e)),
        }
    }
}

pub open spec fn b_append(st: SState, args: Seq<SArg>) -> Outcome {
    match append_from(args, 0, Seq::empty()) {
        Ok(items) => done(st, Ok(SValue::List(items))),
        Err(e) => done(st, Err(e)),
    }
}

pub open spec fn b_kind(st: SState, args: Seq<SArg>, pos: SourcePos, k: Kind) -> Outcome {
    if args.len() != 1 {
        done(st, Err(arity_error(pos, kind_name(k), exactly(1))))
    } else {
        done(st, Ok(SValue::Boolean(kind_holds(k, args[0].value))))
    }
}

pub open spec fn b_print(st: SState, args: Seq<SArg>, pos: SourcePos, display: bool) -> Outcome {
    if args.len() != 1 {
        done(st, Err(arity_error(pos, if display { "display"@ } else { "write"@ }, exactly(1))))
    } else {
        done(
            SState { output: st.output + render(args[0].value, st.strings, display), ..st },
            Ok(SValue::Void),
        )
    }
}

/// The arguments after the first, up to index `n`, each after a space as
/// `display` writes it.
pub open spec fn irritants_text(args: Seq<SArg>, n: int, strings: Seq<Seq<char>>) -> Seq<char>
    decreases n,
{
    if n <= 1 || n > args.len() {
        Seq::empty()
    } else {
        irritants_text(args, n - 1, strings) + " "@ + render(args[n - 1].value, strings, true)
    }
}

/// `error`: fails with its arguments as `display` writes them, separated by
/// spaces; with no arguments, with the text `error`.
pub open spec fn b_error(st: SState, args: Seq<SArg>) -> Outcome {
    if args.len() == 0 {
        done(st, Err(ErrorView::Message("error"@)))
    } else {
        done(
            st,
            Err(ErrorView::Message(render(args[0].value, st.strings, true) + irritants_text(args, args.len() as int, st.strings))),
        )
    }
}

pub open spec fn b_newline(st: SState, args: Seq<SArg>, pos: SourcePos) -> Outcome {
    if args.len() != 0 {
        done(st, Err(arity_error(pos, "newline"@, exactly(0))))
    } else {
        done(SState { output: st.output.push('\n'), ..st }, Ok(SValue::Void))
    }
}

/// A new string with the given contents.
pub open spec fn new_string(st: SState, s: Seq<char>) -> Outcome {
    let (st2, h) = alloc_string(st, s);
    done(st2, Ok(SValue::Str(h)))
}

pub open spec fn b_string_append(st: SState, args: Seq<SArg>) -> Outcome {
    match string_append_from(st.strings, args, 0, Seq::empty()) {
        Ok(s) => new_string(st, s),
        Err(e) => done(st, Err(e)),
    }
}

pub open spec fn b_string_length(st: SState, args: Seq<SArg>, pos: SourcePos) -> Outcome {
    if args.len() != 1 {
        done(st, Err(arity_error(pos, "string-length"@, exactly(1))))
    } else {
        match expect_string(args[0], "string-length"@) {
            Ok(h) => done(st, Ok(SValue::Integer(st.strings[h as int].len() as i64))),
            Err(e) => done(st, Err(e)),
        }
    }
}

pub open spec fn b_substring(st: SState, args: Seq<SArg>, pos: SourcePos) -> Outcome {
    if args.len() != 3 {
        done(st, Err(arity_error(pos, "substring"@, exactly(3))))
    } else {
        match expect_string(args[0], "substring"@) {
            Err(e) => done(st, Err(e)),
            Ok(h) => match expect_integer(args[1], "substring"@) {
                Err(e) => done(st, Err(e)),
                Ok(start) => match expect_integer(args[2], "substring"@) {
                    Err(e) => done(st, Err(e)),
                    Ok(end) => {
                        let s = st.strings[h as int];
                        if start < 0 || start > s.len() {
                            done(st, Err(error_at(args[1].pos, "substring: start index out of range"@)))
                        } else if end < start || end > s.len() {
                            done(st, Err(error_at(args[2].pos, "substring: end index out of range"@)))
                        } else {
                            new_string(st, s.subrange(start as int, end as int))
                        }
                    },
                },
            },
        }
    }
}

pub open spec fn b_string_to_number(st: SState, args: Seq<SArg>, pos: SourcePos) -> Outcome {
    if args.len() != 1 {
        done(st, Err(arity_error(pos, "string->number"@, exactly(1))))
    } else {
        match expect_string(args[0], "string->number"@) {
            Ok(h) => match parse_i64(st.strings[h as int]) {
                Some(v) => done(st, Ok(SValue::Integer(v))),
                None => done(st, Ok(SValue::Boolean(false))),
            },
            Err(e) => done(st, Err(e)),
        }
    }
}

pub open spec fn b_number_to_string(st: SState, args: Seq<SArg>, pos: SourcePos) -> Outcome {
    if args.len() != 1 {
        done(st, Err(arity_error(pos, "number->string"@, exactly(1))))
    } else {
        match expect_integer(args[0], "number->string"@) {
            Ok(v) => new_string(st, int_text(v as int)),
            Err(e) => done(st, Err(e)),
        }
    }
}

pub open spec fn b_symbol_to_string(st: SState, args: Seq<SArg>, pos: SourcePos) -> Outcome {
    if args.len() != 1 {
        done(st, Err(arity_error(pos, "symbol->string"@, exactly(1))))
    } else {
        match expect_symbol(args[0], "symbol->string"@) {
            Ok(name) => new_string(st, name),
            Err(e) => done(st, Err(e)),
        }
    }
}

pub open spec fn b_string_to_symbol(st: SState, args: Seq<SArg>, pos: SourcePos) -> Outcome {
    if args.len() != 1 {
        done(st, Err(arity_error(pos, "string->symbol"@, exactly(1))))
    } else {
        match expect_string(args[0], "string->symbol"@) {
            Ok(h) => done(st, Ok(SValue::Symbol(st.strings[h as int]))),
            Err(e) => done(st, Err(e)),
        }
    }
}

pub open spec fn b_string_ref(st: SState, args: Seq<SArg>, pos: SourcePos) -> Outcome {
    if args.len() != 2 {
        done(st, Err(arity_error(pos, "string-ref"@, exactly(2))))
    } else {
        match expect_string(args[0], "string-ref"@) {
            Err(e) => done(st, Err(e)),
            Ok(h) => match expect_integer(args[1], "string-ref"@) {
                Err(e) => done(st, Err(e)),
                Ok(i) => if i < 0 || i >= st.strings[h as int].len() {
                    done(st, Err(error_at(args[1].pos, "string-ref: index out of range"@)))
                } else {
                    done(st, Ok(SValue::Character(st.strings[h as int][i as int])))
                },
            },
        }
    }
}

pub open spec fn b_string_set(st: SState, args: Seq<SArg>, pos: SourcePos) -> Outcome {
    if args.len() != 3 {
        done(st, Err(arity_error(pos, "string-set!"@, exactly(3))))
    } else {
        match expect_string(args[0], "string-set!"@) {
            Err(e) => done(st, Err(e)),
            Ok(h) => match expect_integer(args[1], "string-set!"@) {
                Err(e) => done(st, Err(e)),
                Ok(i) => match expect_character(args[2], "string-set!"@) {
                    Err(e) => done(st, Err(e)),
                    Ok(c) => if i < 0 || i >= st.strings[h as int].len() {
                        done(st, Err(error_at(args[1].pos, "string-set!: index out of range"@)))
                    } else {
                        done(
                            SState {
                                strings: st.strings.update(h as int, st.strings[h as int].update(i as int, c)),
                                ..st
                            },
                            Ok(SValue::Void),
                        )
                    },
                },
            },
        }
    }
}

pub open spec fn b_string_copy(st: SState, args: Seq<SArg>, pos: SourcePos) -> Outcome {
    if args.len() != 1 {
        done(st, Err(arity_error(pos, "string-copy"@, exactly(1))))
    } else {
        match expect_string(args[0], "string-copy"@) {
            Ok(h) => new_string(st, st.strings[h as int]),
            Err(e) => done(st, Err(e)),
        }
    }
}

/// The text in upper case, as std's `str::to_uppercase` gives it (by
/// Unicode's case mappings, which may change its length).
pub uninterp spec fn upper_text(s: Seq<char>) -> Seq<char>;

/// The text in lower case, as std's `str::to_lowercase` gives it.
pub uninterp spec fn lower_text(s: Seq<char>) -> Seq<char>;

/// `str::to_uppercase` from std, on the text of `s`. Its result comes from
/// Unicode's tables; the contract names it and says nothing more.
#[verifier::external_body]
fn to_upper_text(s: &[char]) -> (r: Vec<char>)
    ensures
        r@ == upper_text(s@),
{
    s.iter().collect::<String>().to_uppercase().chars().collect()
}

/// `str::to_lowercase` from std, on the text of `s`. Its result comes from
/// Unicode's tables; the contract names it and says nothing more.
#[verifier::external_body]
fn to_lower_text(s: &[char]) -> (r: Vec<char>)
    ensures
        r@ == lower_text(s@),
{
    s.iter().collect::<String>().to_lowercase().chars().collect()
}

/// `string-upcase` (when `upper`) and `string-downcase`: a new string.
pub open spec fn b_string_case(st: SState, args: Seq<SArg>, pos: SourcePos, upper: bool) -> Outcome {
    let name = if upper { "string-upcase"@ } else { "string-downcase"@ };
    if args.len() != 1 {
        done(st, Err(arity_error(pos, name, exactly(1))))
    } else {
        match expect_string(args[0], name) {
            Ok(h) => new_string(st, if upper { upper_text(st.strings[h as int]) } else { lower_text(st.strings[h as int]) }),
            Err(e) => done(st, Err(e)),
        }
    }
}

/// `string-ci=?`: whether two strings are the same in lower case.
pub open spec fn b_string_ci_equal(st: SState, args: Seq<SArg>, pos: SourcePos) -> Outcome {
    if args.len() != 2 {
        done(st, Err(arity_error(pos, "string-ci=?"@, exactly(2))))
    } else {
        match expect_string(args[0], "string-ci=?"@) {
            Ok(a) => match expect_string(args[1], "string-ci=?"@) {
                Ok(b) => done(st, Ok(SValue::Boolean(lower_text(st.strings[a as int]) == lower_text(st.strings[b as int])))),
                Err(e) => done(st, Err(e)),
            },
            Err(e) => done(st, Err(e)),
        }
    }
}

/// `make-string`: a new string of `n` copies of a character, `\0` when none
/// is given; a negative length is an error.
pub open spec fn b_make_string(st: SState, args: Seq<SArg>, pos: SourcePos) -> Outcome {
    if args.len() != 1 && args.len() != 2 {
        done(st, Err(arity_error(pos, "make-string"@, "expected 1 or 2 arguments"@)))
    } else {
        match expect_integer(args[0], "make-string"@) {
            Ok(n) => match (if args.len() == 2 { expect_character(args[1], "make-string"@) } else { Ok('\0') }) {
                Ok(c) => if n < 0 {
                    done(st, Err(type_error(args[0].pos, "make-string"@ + " expects a non-negative length"@)))
                } else {
                    new_string(st, Seq::new(n as nat, |i: int| c))
                },
                Err(e) => done(st, Err(e)),
            },
            Err(e) => done(st, Err(e)),
        }
    }
}

/// `base` multiplied by itself `e` times, wrapping at the bounds of `i64`.
pub open spec fn pow_wrapping(base: i64, e: nat) -> i64
    decreases e,
{
    if e == 0 {
        1
    } else {
        pow_wrapping(base, (e - 1) as nat).wrapping_mul(base)
    }
}

/// `i64::wrapping_pow` from std: `base` to the power `exp`, wrapping at the
/// bounds of `i64`, which is `exp` wrapping multiplications by `base`.
#[verifier::external_body]
fn wrapping_power(base: i64, exp: u32) -> (r: i64)
    ensures
        r == pow_wrapping(base, exp as nat),
{
    base.wrapping_pow(exp)
}

/// `expt`: `0` for a negative exponent; otherwise the base to the power of
/// the exponent's low 32 bits, wrapping at the bounds of `i64`.
pub open spec fn b_expt(st: SState, args: Seq<SArg>, pos: SourcePos) -> Outcome {
    if args.len() != 2 {
        done(st, Err(arity_error(pos, "expt"@, exactly(2))))
    } else {
        match expect_integer(args[0], "expt"@) {
            Ok(base) => match expect_integer(args[1], "expt"@) {
                Ok(e) => done(st, Ok(SValue::Integer(if e < 0 { 0 } else { pow_wrapping(base, (e as u32) as nat) }))),
                Err(err) => done(st, Err(err)),
            },
            Err(err) => done(st, Err(err)),
        }
    }
}

/// `eq?`, `eqv?` and `equal?`: `deep` selects `equal?`.
pub open spec fn b_same(st: SState, args: Seq<SArg>, pos: SourcePos, deep: bool, name: Seq<char>) -> Outcome {
    if args.len() != 2 {
        done(st, Err(arity_error(pos, name, exactly(2))))
    } else if deep {
        done(st, Ok(SValue::Boolean(equal(args[0].value, args[1].value, st.strings))))
    } else {
        done(st, Ok(SValue::Boolean(eqv(args[0].value, args[1].value))))
    }
}

/// The ASCII upper-case form of a character; other characters are unchanged.
pub open spec fn ascii_upcase(c: char) -> char {
    if 'a' <= c && c <= 'z' {
        ((c as int) - 32) as char
    } else {
        c
    }
}

/// The ASCII lower-case form of a character; other characters are unchanged.
pub open spec fn ascii_downcase(c: char) -> char {
    if 'A' <= c && c <= 'Z' {
        ((c as int) + 32) as char
    } else {
        c
    }
}

/// The one-character operations `char-numeric?`, `char-upcase`,
/// `char-downcase` and `char->integer`.
#[derive(Clone, Copy, PartialEq, Eq, Structural)]
pub enum CharOp {
    Numeric,
    Upcase,
    Downcase,
    ToInteger,
    Alphabetic,
}

pub open spec fn char_op_name(op: CharOp) -> Seq<char> {
    match op {
        CharOp::Numeric => "char-numeric?"@,
        CharOp::Upcase => "char-upcase"@,
        CharOp::Downcase => "char-downcase"@,
        CharOp::ToInteger => "char->integer"@,
        CharOp::Alphabetic => "char-alphabetic?"@,
    }
}

pub open spec fn char_op_result(op: CharOp, c: char) -> SValue {
    match op {
        CharOp::Numeric => SValue::Boolean(is_digit(c)),
        CharOp::Upcase => SValue::Character(ascii_upcase(c)),
        CharOp::Downcase => SValue::Character(ascii_downcase(c)),
        CharOp::ToInteger => SValue::Integer((c as int) as i64),
        CharOp::Alphabetic => SValue::Boolean(char_is_alphabetic(c)),
    }
}

pub open spec fn b_char_op(st: SState, args: Seq<SArg>, pos: SourcePos, op: CharOp) -> Outcome {
    if args.len() != 1 {
        done(st, Err(arity_error(pos, char_op_name(op), exactly(1))))
    } else {
        match expect_character(args[0], char_op_name(op)) {
            Ok(c) => done(st, Ok(char_op_result(op, c))),
            Err(e) => done(st, Err(e)),
        }
    }
}

/// Whether `c` has the Unicode `Alphabetic` property, as std's
/// `char::is_alphabetic` reports it.
pub uninterp spec fn char_is_alphabetic(c: char) -> bool;

/// `char::is_alphabetic` from std. Its result comes from std's Unicode
/// tables; the contract names it and says nothing more.
#[verifier::external_body]
fn is_alphabetic(c: char) -> (r: bool)
    ensures
        r == char_is_alphabetic(c),
{
    c.is_alphabetic()
}

/// A Unicode scalar value: a code point that is not a surrogate.
pub open spec fn scalar_value(u: u32) -> bool {
    u <= 0xD7FF || (0xE000 <= u && u <= 0x10FFFF)
}

/// `char::from_u32` from std: the character whose code is `u` when `u` is a
/// Unicode scalar value, and `None` otherwise.
#[verifier::external_body]
fn char_from_code(u: u32) -> (r: Option<char>)
    ensures
        r is Some <==> scalar_value(u),
        r matches Some(c) ==> c == u as char,
{
    char::from_u32(u)
}

/// `integer->char`: the character whose code is the integer's low 32 bits,
/// when those bits are a Unicode scalar value.
pub open spec fn b_integer_to_char(st: SState, args: Seq<SArg>, pos: SourcePos) -> Outcome {
    if args.len() != 1 {
        done(st, Err(arity_error(pos, "integer->char"@, exactly(1))))
    } else {
        match expect_integer(args[0], "integer->char"@) {
            Ok(n) => if scalar_value(n as u32) {
                done(st, Ok(SValue::Character((n as u32) as char)))
            } else {
                done(st, Err(type_error(args[0].pos, "integer->char"@ + " expects a valid code point"@)))
            },
            Err(e) => done(st, Err(e)),
        }
    }
}

/// `char=?` and, with `less`, `char<?`.
pub open spec fn b_char_compare(st: SState, args: Seq<SArg>, pos: SourcePos, less: bool) -> Outcome {
    let name = if less { "char<?"@ } else { "char=?"@ };
    if args.len() != 2 {
        done(st, Err(arity_error(pos, name, exactly(2))))
    } else {
        match expect_character(args[0], name) {
            Err(e) => done(st, Err(e)),
            Ok(a) => match expect_character(args[1], name) {
                Err(e) => done(st, Err(e)),
                Ok(b) => done(st, Ok(SValue::Boolean(if less { a < b } else { a == b }))),
            },
        }
    }
}

/// `list-ref`: the element of a list at an index.
pub open spec fn b_list_ref(st: SState, args: Seq<SArg>, pos: SourcePos) -> Outcome {
    if args.len() != 2 {
        done(st, Err(arity_error(pos, "list-ref"@, exactly(2))))
    } else {
        match expect_list(args[0], "list-ref"@) {
            Err(e) => done(st, Err(e)),
            Ok(items) => match expect_integer(args[1], "list-ref"@) {
                Err(e) => done(st, Err(e)),
                Ok(k) => if k < 0 || k >= items.len() {
                    done(st, Err(error_at(args[1].pos, "list-ref: index out of range"@)))
                } else {
                    done(st, Ok(items[k as int]))
                },
            },
        }
    }
}

/// `list-tail`: what is left of a list after dropping its first `k` elements;
/// with `k` zero, the argument itself, list or not.
pub open spec fn b_list_tail(st: SState, args: Seq<SArg>, pos: SourcePos) -> Outcome {
    if args.len() != 2 {
        done(st, Err(arity_error(pos, "list-tail"@, exactly(2))))
    } else {
        match expect_integer(args[1], "list-tail"@) {
            Err(e) => done(st, Err(e)),
            Ok(k) => if k == 0 {
                done(st, Ok(args[0].value))
            } else {
                match args[0].value {
                    SValue::List(items) => if 0 < k && k <= items.len() {
                        done(st, Ok(SValue::List(items.skip(k as int))))
                    } else {
                        done(st, Err(error_at(args[1].pos, "list-tail: index out of range"@)))
                    },
                    _ => done(st, Err(error_at(args[1].pos, "list-tail: index out of range"@))),
                }
            },
        }
    }
}

/// `list?` and `reverse`.
pub open spec fn b_list_shape(st: SState, args: Seq<SArg>, pos: SourcePos, reverse: bool) -> Outcome {
    let name = if reverse { "reverse"@ } else { "list?"@ };
    if args.len() != 1 {
        done(st, Err(arity_error(pos, name, exactly(1))))
    } else if !reverse {
        done(st, Ok(SValue::Boolean(args[0].value is List)))
    } else {
        match expect_list(args[0], name) {
            Ok(items) => done(st, Ok(SValue::List(Seq::new(items.len(), |i: int| items[items.len() - 1 - i])))),
            Err(e) => done(st, Err(e)),
        }
    }
}

/// `equal?` when `deep`, else `eqv?`.
pub open spec fn same_as(a: SValue, b: SValue, deep: bool, strings: Seq<Seq<char>>) -> bool {
    if deep {
        equal(a, b, strings)
    } else {
        eqv(a, b)
    }
}

/// The first index from `i` on whose element is the same as `key`, or -1.
pub open spec fn member_index(items: Seq<SValue>, i: int, key: SValue, deep: bool, strings: Seq<Seq<char>>) -> int
    decreases items.len() - i,
{
    if i < 0 || i >= items.len() {
        -1
    } else if same_as(key, items[i], deep, strings) {
        i
    } else {
        member_index(items, i + 1, key, deep, strings)
    }
}

/// Whether an association-list entry is a non-empty list whose first element is the same as `key`.
pub open spec fn entry_matches(entry: SValue, key: SValue, deep: bool, strings: Seq<Seq<char>>) -> bool {
    entry is List && entry->List_0.len() > 0 && same_as(key, entry->List_0[0], deep, strings)
}

/// The first index from `i` on whose entry matches `key`, or -1.
pub open spec fn assoc_index(items: Seq<SValue>, i: int, key: SValue, deep: bool, strings: Seq<Seq<char>>) -> int
    decreases items.len() - i,
{
    if i < 0 || i >= items.len() {
        -1
    } else if entry_matches(items[i], key, deep, strings) {
        i
    } else {
        assoc_index(items, i + 1, key, deep, strings)
    }
}

/// The searches `memq`, `memv`, `member`, `assq`, `assv` and `assoc`.
#[derive(Clone, Copy, PartialEq, Eq, Structural)]
pub enum Search {
    Memq,
    Memv,
    Member,
    Assq,
    Assv,
    Assoc,
}

pub open spec fn search_name(op: Search) -> Seq<char> {
    match op {
        Search::Memq => "memq"@,
        Search::Memv => "memv"@,
        Search::Member => "member"@,
        Search::Assq => "assq"@,
        Search::Assv => "assv"@,
        Search::Assoc => "assoc"@,
    }
}

pub open spec fn search_deep(op: Search) -> bool {
    op == Search::Member || op == Search::Assoc
}

/// A member search gives the rest of the list from the first element that is
/// the same as the key, or `#f`, and `#f` for a second argument that is no
/// list; an association search gives the first entry whose first element is
/// the same as the key, or `#f`.
pub open spec fn b_search(st: SState, args: Seq<SArg>, pos: SourcePos, op: Search) -> Outcome {
    let deep = search_deep(op);
    if args.len() != 2 {
        done(st, Err(arity_error(pos, search_name(op), exactly(2))))
    } else if op == Search::Memq || op == Search::Memv || op == Search::Member {
        match args[1].value {
            SValue::List(items) => {
                let i = member_index(items, 0, args[0].value, deep, st.strings);
                if i < 0 {
                    done(st, Ok(SValue::Boolean(false)))
                } else {
                    done(st, Ok(SValue::List(items.skip(i))))
                }
            },
            _ => done(st, Ok(SValue::Boolean(false))),
        }
    } else {
        match expect_list(args[1], search_name(op)) {
            Ok(items) => {
                let i = assoc_index(items, 0, args[0].value, deep, st.strings);
                if i < 0 {
                    done(st, Ok(SValue::Boolean(false)))
                } else {
                    done(st, Ok(items[i]))
                }
            },
            Err(e) => done(st, Err(e)),
        }
    }
}

/// The remainder of a division that rounds toward zero; the one that
/// overflows, `i64::MIN` by -1, is 0.
pub open spec fn trunc_rem(a: i64, d: i64) -> i64 {
    match a.checked_rem(d) {
        Some(r) => r,
        None => 0,
    }
}

/// The remainder with the sign of the divisor.
pub open spec fn floor_mod(a: i64, d: i64) -> i64 {
    let r = trunc_rem(a, d);
    if r != 0 && ((r < 0) != (d < 0)) {
        (r + d) as i64
    } else {
        r
    }
}

/// The two-argument integer divisions `quotient`, `remainder` and `modulo`.
#[derive(Clone, Copy, PartialEq, Eq, Structural)]
pub enum Division {
    Quotient,
    Remainder,
    Modulo,
}

pub open spec fn division_name(op: Division) -> Seq<char> {
    match op {
        Division::Quotient => "quotient"@,
        Division::Remainder => "remainder"@,
        Division::Modulo => "modulo"@,
    }
}

pub open spec fn division_result(op: Division, a: i64, d: i64) -> i64 {
    match op {
        Division::Quotient => trunc_div(a, d),
        Division::Remainder => trunc_rem(a, d),
        Division::Modulo => floor_mod(a, d),
    }
}

pub open spec fn b_division(st: SState, args: Seq<SArg>, pos: SourcePos, op: Division) -> Outcome {
    if args.len() != 2 {
        done(st, Err(arity_error(pos, division_name(op), exactly(2))))
    } else {
        match expect_integer(args[0], division_name(op)) {
            Err(e) => done(st, Err(e)),
            Ok(a) => match expect_integer(args[1], division_name(op)) {
                Err(e) => done(st, Err(e)),
                Ok(d) => if d == 0 {
                    done(st, Err(error_at(args[1].pos, "division by zero"@)))
                } else {
                    done(st, Ok(SValue::Integer(division_result(op, a, d))))
                },
            },
        }
    }
}

/// `min` and `max`: the least or greatest of one or more integers.
pub open spec fn b_extreme(st: SState, args: Seq<SArg>, pos: SourcePos, op: IntOp, name: Seq<char>) -> Outcome {
    if args.len() == 0 {
        done(st, Err(arity_error(pos, name, "expected at least 1 argument"@)))
    } else {
        match expect_integer(args[0], name) {
            Ok(first) => match fold_ints(args, 1, first, op, name) {
                Ok(t) => done(st, Ok(SValue::Integer(t))),
                Err(e) => done(st, Err(e)),
            },
            Err(e) => done(st, Err(e)),
        }
    }
}

/// The one-integer operations `abs`, `zero?`, `positive?`, `negative?`,
/// `odd?` and `even?`; `abs` of `i64::MIN` wraps around to itself.
#[derive(Clone, Copy, PartialEq, Eq, Structural)]
pub enum IntTest {
    Abs,
    Zero,
    Positive,
    Negative,
    Odd,
    Even,
}

pub open spec fn int_test_name(op: IntTest) -> Seq<char> {
    match op {
        IntTest::Abs => "abs"@,
        IntTest::Zero => "zero?"@,
        IntTest::Positive => "positive?"@,
        IntTest::Negative => "negative?"@,
        IntTest::Odd => "odd?"@,
        IntTest::Even => "even?"@,
    }
}

pub open spec fn int_test_result(op: IntTest, n: i64) -> SValue {
    match op {
        IntTest::Abs => SValue::Integer(if n < 0 { 0i64.wrapping_sub(n) } else { n }),
        IntTest::Zero => SValue::Boolean(n == 0),
        IntTest::Positive => SValue::Boolean(n > 0),
        IntTest::Negative => SValue::Boolean(n < 0),
        IntTest::Odd => SValue::Boolean(n % 2 != 0),
        IntTest::Even => SValue::Boolean(n % 2 == 0),
    }
}

pub open spec fn b_int_test(st: SState, args: Seq<SArg>, pos: SourcePos, op: IntTest) -> Outcome {
    if args.len() != 1 {
        done(st, Err(arity_error(pos, int_test_name(op), exactly(1))))
    } else {
        match expect_integer(args[0], int_test_name(op)) {
            Ok(n) => done(st, Ok(int_test_result(op, n))),
            Err(e) => done(st, Err(e)),
        }
    }
}

/// The greatest common divisor of two naturals, by Euclid's algorithm.
pub open spec fn gcd_nat(a: nat, b: nat) -> nat
    decreases b,
{
    if b == 0 {
        a
    } else {
        gcd_nat(b, a % b)
    }
}

/// The magnitude of an integer.
pub open spec fn magnitude(n: i64) -> nat {
    if n < 0 {
        (-(n as int)) as nat
    } else {
        n as nat
    }
}

/// `gcd`: the greatest common divisor of the magnitudes of two integers,
/// as an `i64` (so the magnitude of `i64::MIN` with 0 wraps to `i64::MIN`).
pub open spec fn b_gcd(st: SState, args: Seq<SArg>, pos: SourcePos) -> Outcome {
    if args.len() != 2 {
        done(st, Err(arity_error(pos, "gcd"@, exactly(2))))
    } else {
        match expect_integer(args[0], "gcd"@) {
            Ok(a) => match expect_integer(args[1], "gcd"@) {
                Ok(b) => done(st, Ok(SValue::Integer(gcd_nat(magnitude(a), magnitude(b)) as i64))),
                Err(e) => done(st, Err(e)),
            },
            Err(e) => done(st, Err(e)),
        }
    }
}

/// The least common multiple from the greatest common divisor `g` (as an
/// `i64`): `a / g * b`, made non-negative, with `i64` wrapping.
pub open spec fn lcm_value(a: i64, b: i64) -> i64 {
    if a == 0 && b == 0 {
        0
    } else {
        let p = trunc_div(a, gcd_nat(magnitude(a), magnitude(b)) as i64).wrapping_mul(b);
        if p < 0 {
            0i64.wrapping_sub(p)
        } else {
            p
        }
    }
}

/// `lcm`: the least common multiple of the magnitudes of two integers.
pub open spec fn b_lcm(st: SState, args: Seq<SArg>, pos: SourcePos) -> Outcome {
    if args.len() != 2 {
        done(st, Err(arity_error(pos, "lcm"@, exactly(2))))
    } else {
        match expect_integer(args[0], "lcm"@) {
            Ok(a) => match expect_integer(args[1], "lcm"@) {
                Ok(b) => done(st, Ok(SValue::Integer(lcm_value(a, b)))),
                Err(e) => done(st, Err(e)),
            },
            Err(e) => done(st, Err(e)),
        }
    }
}

fn magnitude_u64(n: i64) -> (r: u64)
    ensures
        r == magnitude(n),
{
    if n == i64::MIN {
        9223372036854775808u64
    } else if n < 0 {
        (-n) as u64
    } else {
        n as u64
    }
}

fn gcd_u64(a: u64, b: u64) -> (r: u64)
    ensures
        r == gcd_nat(a as nat, b as nat),
{
    let mut x = a;
    let mut y = b;
    while y != 0
        invariant
            gcd_nat(x as nat, y as nat) == gcd_nat(a as nat, b as nat),
        decreases y,
    {
        let t = y;
        y = x % y;
        x = t;
    }
    x
}

/// `a` comes before `b` in the order of their characters' codes, a proper
/// prefix first.
pub open spec fn text_less(a: Seq<char>, b: Seq<char>) -> bool
    decreases a.len(),
{
    if a.len() == 0 {
        b.len() > 0
    } else if b.len() == 0 {
        false
    } else if a[0] != b[0] {
        a[0] < b[0]
    } else {
        text_less(a.skip(1), b.skip(1))
    }
}

/// The string comparisons `string=?`, `string<?`, `string>?`, `string<=?` and `string>=?`.
#[derive(Clone, Copy, PartialEq, Eq, Structural)]
pub enum TextOrder {
    Eq,
    Lt,
    Gt,
    Le,
    Ge,
}

pub open spec fn text_order_name(op: TextOrder) -> Seq<char> {
    match op {
        TextOrder::Eq => "string=?"@,
        TextOrder::Lt => "string<?"@,
        TextOrder::Gt => "string>?"@,
        TextOrder::Le => "string<=?"@,
        TextOrder::Ge => "string>=?"@,
    }
}

pub open spec fn text_order_holds(op: TextOrder, a: Seq<char>, b: Seq<char>) -> bool {
    match op {
        TextOrder::Eq => a == b,
        TextOrder::Lt => text_less(a, b),
        TextOrder::Gt => text_less(b, a),
        TextOrder::Le => !text_less(b, a),
        TextOrder::Ge => !text_less(a, b),
    }
}

pub open spec fn b_string_compare(st: SState, args: Seq<SArg>, pos: SourcePos, op: TextOrder) -> Outcome {
    if args.len() != 2 {
        done(st, Err(arity_error(pos, text_order_name(op), exactly(2))))
    } else {
        match expect_string(args[0], text_order_name(op)) {
            Err(e) => done(st, Err(e)),
            Ok(a) => match expect_string(args[1], text_order_name(op)) {
                Err(e) => done(st, Err(e)),
                Ok(b) => done(
                    st,
                    Ok(SValue::Boolean(text_order_holds(op, st.strings[a as int], st.strings[b as int]))),
                ),
            },
        }
    }
}

pub open spec fn char_value(c: char) -> SValue {
    SValue::Character(c)
}

/// `string->list`: the characters of a string, as a list.
pub open spec fn b_string_to_list(st: SState, args: Seq<SArg>, pos: SourcePos) -> Outcome {
    if args.len() != 1 {
        done(st, Err(arity_error(pos, "string->list"@, exactly(1))))
    } else {
        match expect_string(args[0], "string->list"@) {
            Ok(h) => done(
                st,
                Ok(SValue::List(Seq::new(st.strings[h as int].len(), |j: int| char_value(st.strings[h as int][j])))),
            ),
            Err(e) => done(st, Err(e)),
        }
    }
}

/// The characters of the items from index `i` on, after `acc`, or `None` if
/// one is not a character.
pub open spec fn chars_of(items: Seq<SValue>, i: int, acc: Seq<char>) -> Option<Seq<char>>
    decreases items.len() - i,
{
    if i < 0 || i >= items.len() {
        Some(acc)
    } else {
        match items[i] {
            SValue::Character(c) => chars_of(items, i + 1, acc.push(c)),
            _ => None,
        }
    }
}

/// `list->string`: a new string of the characters in a list.
pub open spec fn b_list_to_string(st: SState, args: Seq<SArg>, pos: SourcePos) -> Outcome {
    if args.len() != 1 {
        done(st, Err(arity_error(pos, "list->string"@, exactly(1))))
    } else {
        match expect_list(args[0], "list->string"@) {
            Ok(items) => match chars_of(items, 0, Seq::empty()) {
                Some(s) => new_string(st, s),
                None => done(st, Err(type_error(args[0].pos, "list->string"@ + " expects a list of characters"@))),
            },
            Err(e) => done(st, Err(e)),
        }
    }
}

/// The characters of the arguments from index `i` on, after `acc`.
pub open spec fn char_args_from(args: Seq<SArg>, i: int, acc: Seq<char>) -> Result<Seq<char>, ErrorView>
    decreases args.len() - i,
{
    if i < 0 || i >= args.len() {
        Ok(acc)
    } else {
        match expect_character(args[i], "string"@) {
            Ok(c) => char_args_from(args, i + 1, acc.push(c)),
            Err(e) => Err(e),
        }
    }
}

/// `string`: a new string of the argument characters.
pub open spec fn b_string_from_chars(st: SState, args: Seq<SArg>) -> Outcome {
    match char_args_from(args, 0, Seq::empty()) {
        Ok(s) => new_string(st, s),
        Err(e) => done(st, Err(e)),
    }
}

/// `apply`, `map` and `for-each` call procedures, so the evaluator applies
/// them (see `higher_order`); applied on their own they only report that.
pub open spec fn b_needs_evaluator(st: SState, pos: SourcePos, name: Seq<char>) -> Outcome {
    done(st, Err(arity_error(pos, name, "needs the evaluator to call procedures"@)))
}

/// What applying a primitive procedure to evaluated arguments does; `pos`
/// is the position of the operator.
pub open spec fn builtin_call(st: SState, b: Builtin, args: Seq<SArg>, pos: SourcePos) -> Outcome {
    match b {
        Builtin::Add => b_fold(st, args, 0, IntOp::Add, "+"@),
        Builtin::Subtract => b_subtract(st, args, pos),
        Builtin::Multiply => b_fold(st, args, 1, IntOp::Mul, "*"@),
        Builtin::Divide => b_divide(st, args, pos),
        Builtin::LessThan => b_compare(st, args, Comparison::Lt),
        Builtin::GreaterThan => b_compare(st, args, Comparison::Gt),
        Builtin::Equal => b_compare(st, args, Comparison::Eq),
        Builtin::LessEqual => b_compare(st, args, Comparison::Le),
        Builtin::GreaterEqual => b_compare(st, args, Comparison::Ge),
        Builtin::Not => b_not(st, args, pos),
        Builtin::Cons => b_cons(st, args, pos),
        Builtin::Car => b_car(st, args, pos),
        Builtin::Cdr => b_cdr(st, args, pos),
        Builtin::Caar | Builtin::Cadr | Builtin::Cdar | Builtin::Cddr | Builtin::Caddr => b_cxr(st, args, pos, b),
        Builtin::NullPredicate => b_null(st, args, pos),
        Builtin::List => done(st, Ok(SValue::List(arg_values(args)))),
        Builtin::Length => b_length(st, args, pos),
        Builtin::Append => b_append(st, args),
        Builtin::StringPredicate => b_kind(st, args, pos, Kind::String),
        Builtin::NumberPredicate => b_kind(st, args, pos, Kind::Number),
        Builtin::BooleanPredicate => b_kind(st, args, pos, Kind::Boolean),
        Builtin::PairPredicate => b_kind(st, args, pos, Kind::Pair),
        Builtin::SymbolPredicate => b_kind(st, args, pos, Kind::Symbol),
        Builtin::Display => b_print(st, args, pos, true),
        Builtin::Write => b_print(st, args, pos, false),
        Builtin::Newline => b_newline(st, args, pos),
        Builtin::StringAppend => b_string_append(st, args),
        Builtin::StringLength => b_string_length(st, args, pos),
        Builtin::Substring => b_substring(st, args, pos),
        Builtin::StringToNumber => b_string_to_number(st, args, pos),
        Builtin::NumberToString => b_number_to_string(st, args, pos),
        Builtin::SymbolToString => b_symbol_to_string(st, args, pos),
        Builtin::StringToSymbol => b_string_to_symbol(st, args, pos),
        Builtin::StringRef => b_string_ref(st, args, pos),
        Builtin::CharPredicate => b_kind(st, args, pos, Kind::Char),
        Builtin::StringSet => b_string_set(st, args, pos),
        Builtin::StringCopy => b_string_copy(st, args, pos),
        Builtin::StringUpcase => b_string_case(st, args, pos, true),
        Builtin::StringDowncase => b_string_case(st, args, pos, false),
        Builtin::StringCiEqual => b_string_ci_equal(st, args, pos),
        Builtin::MakeString => b_make_string(st, args, pos),
        Builtin::Expt => b_expt(st, args, pos),
        Builtin::EqPredicate => b_same(st, args, pos, false, "eq?"@),
        Builtin::EqvPredicate => b_same(st, args, pos, false, "eqv?"@),
        Builtin::EqualPredicate => b_same(st, args, pos, true, "equal?"@),
        Builtin::CharNumeric => b_char_op(st, args, pos, CharOp::Numeric),
        Builtin::CharUpcase => b_char_op(st, args, pos, CharOp::Upcase),
        Builtin::CharDowncase => b_char_op(st, args, pos, CharOp::Downcase),
        Builtin::CharEqual => b_char_compare(st, args, pos, false),
        Builtin::CharLess => b_char_compare(st, args, pos, true),
        Builtin::CharToInteger => b_char_op(st, args, pos, CharOp::ToInteger),
        Builtin::CharAlphabetic => b_char_op(st, args, pos, CharOp::Alphabetic),
        Builtin::IntegerToChar => b_integer_to_char(st, args, pos),
        Builtin::ListRef => b_list_ref(st, args, pos),
        Builtin::ListTail => b_list_tail(st, args, pos),
        Builtin::ListPredicate => b_list_shape(st, args, pos, false),
        Builtin::Reverse => b_list_shape(st, args, pos, true),
        Builtin::Memq => b_search(st, args, pos, Search::Memq),
        Builtin::Memv => b_search(st, args, pos, Search::Memv),
        Builtin::Member => b_search(st, args, pos, Search::Member),
        Builtin::Assq => b_search(st, args, pos, Search::Assq),
        Builtin::Assv => b_search(st, args, pos, Search::Assv),
        Builtin::Assoc => b_search(st, args, pos, Search::Assoc),
        Builtin::Abs => b_int_test(st, args, pos, IntTest::Abs),
        Builtin::Gcd => b_gcd(st, args, pos),
        Builtin::Lcm => b_lcm(st, args, pos),
        Builtin::Quotient => b_division(st, args, pos, Division::Quotient),
        Builtin::Remainder => b_division(st, args, pos, Division::Remainder),
        Builtin::Modulo => b_division(st, args, pos, Division::Modulo),
        Builtin::Min => b_extreme(st, args, pos, IntOp::Min, "min"@),
        Builtin::Max => b_extreme(st, args, pos, IntOp::Max, "max"@),
        Builtin::ZeroPredicate => b_int_test(st, args, pos, IntTest::Zero),
        Builtin::PositivePredicate => b_int_test(st, args, pos, IntTest::Positive),
        Builtin::NegativePredicate => b_int_test(st, args, pos, IntTest::Negative),
        Builtin::OddPredicate => b_int_test(st, args, pos, IntTest::Odd),
        Builtin::EvenPredicate => b_int_test(st, args, pos, IntTest::Even),
        Builtin::StringEqual => b_string_compare(st, args, pos, TextOrder::Eq),
        Builtin::StringLess => b_string_compare(st, args, pos, TextOrder::Lt),
        Builtin::StringGreater => b_string_compare(st, args, pos, TextOrder::Gt),
        Builtin::StringLessEqual => b_string_compare(st, args, pos, TextOrder::Le),
        Builtin::StringGreaterEqual => b_string_compare(st, args, pos, TextOrder::Ge),
        Builtin::StringToList => b_string_to_list(st, args, pos),
        Builtin::ListToString => b_list_to_string(st, args, pos),
        Builtin::StringFromChars => b_string_from_chars(st, args),
        Builtin::IntegerPredicate => b_kind(st, args, pos, Kind::Integer),
        Builtin::ProcedurePredicate => b_kind(st, args, pos, Kind::Procedure),
        Builtin::Apply => b_needs_evaluator(st, pos, "apply"@),
        Builtin::MapEach => b_needs_evaluator(st, pos, "map"@),
        Builtin::ForEach => b_needs_evaluator(st, pos, "for-each"@),
        Builtin::Error => b_error(st, args),
    }
}


/// What `string-set!` stores, `string-ref` reads back: once `(string-set! s k c)`
/// succeeds, `(string-ref s k)` gives `c`, and the string keeps its length.
pub proof fn law_string_ref_after_set(
    st: SState,
    s: SArg,
    k: SArg,
    c: SArg,
    pos: SourcePos,
    pos2: SourcePos,
)
    requires
        value_ok(s.value, st.frames.len(), st.strings.len()),
        builtin_call(st, Builtin::StringSet, seq![s, k, c], pos).1 is Ok,
    ensures
        ({
            let after = builtin_call(st, Builtin::StringSet, seq![s, k, c], pos).0;
            &&& builtin_call(after, Builtin::StringRef, seq![s, k], pos2).1 == Ok::<SValue, ErrorView>(c.value)
            &&& builtin_call(after, Builtin::StringLength, seq![s], pos2).1 == builtin_call(
                st,
                Builtin::StringLength,
                seq![s],
                pos2,
            ).1
        }),
{
    let set_args = seq![s, k, c];
    let ref_args = seq![s, k];
    let len_args = seq![s];
    assert(set_args.len() == 3 && set_args[0] == s && set_args[1] == k && set_args[2] == c);
    assert(ref_args.len() == 2 && ref_args[0] == s && ref_args[1] == k);
    assert(len_args.len() == 1 && len_args[0] == s);
}

/// The usual postcondition of a step: the state it leaves and its result are
/// those of `expected`, the state grew, and a returned value mentions only
/// existing frames and strings.
pub open spec fn step_ok(before: SState, after: SState, r: Result<Value, EvalError>, expected: Outcome) -> bool {
    &&& (after, value_result(r)) == expected
    &&& grows(before, after)
    &&& (r matches Ok(v) ==> value_ok(v@, after.frames.len(), after.strings.len()))
}

pub proof fn lemma_args_view(args: Seq<Arg>)
    ensures
        args_view(args).len() == args.len(),
        forall|i: int| 0 <= i < args.len() ==> #[trigger] args_view(args)[i] == args[i]@,
{
}

pub(crate) fn type_mismatch(pos: SourcePos, name: &str, tail: &str) -> (e: EvalError)
    ensures
        e@ == type_error(pos, name@ + tail@),
{
    let mut msg = str_chars(name);
    push_str(&mut msg, tail);
    EvalError::type_error(pos, &msg)
}

/// Whether `a` comes before `b` (see `text_less`).
fn chars_less(a: &Vec<char>, b: &Vec<char>) -> (r: bool)
    ensures
        r == text_less(a@, b@),
{
    let mut i: usize = 0;
    proof {
        assert(a@.skip(0) =~= a@);
        assert(b@.skip(0) =~= b@);
    }
    while i < a.len() && i < b.len()
        invariant
            i <= a@.len(),
            i <= b@.len(),
            text_less(a@, b@) == text_less(a@.skip(i as int), b@.skip(i as int)),
        decreases a@.len() - i,
    {
        if a[i] != b[i] {
            return a[i] < b[i];
        }
        proof {
            assert(a@.skip(i as int).skip(1) =~= a@.skip(i + 1));
            assert(b@.skip(i as int).skip(1) =~= b@.skip(i + 1));
        }
        i = i + 1;
    }
    a.len() < b.len()
}

pub(crate) fn arity_err(pos: SourcePos, name: &str, message: &str) -> (e: EvalError)
    ensures
        e@ == arity_error(pos, name@, message@),
{
    EvalError::arity(pos, &str_chars(name), &str_chars(message))
}

fn at_err(pos: SourcePos, message: &str) -> (e: EvalError)
    ensures
        e@ == error_at(pos, message@),
{
    EvalError::at(pos, &str_chars(message))
}

fn expect_integer_arg(a: &Arg, name: &str) -> (r: Result<i64, EvalError>)
    ensures
        err_view(r) == expect_integer(a@, name@),
{
    match &a.value {
        Value::Integer(v) => Ok(*v),
        _ => Err(type_mismatch(a.pos, name, " expects integer arguments")),
    }
}

fn expect_list_arg<'b>(a: &'b Arg, name: &str) -> (r: Result<&'b Vec<Value>, EvalError>)
    ensures
        match expect_list(a@, name@) {
            Ok(items) => r matches Ok(x) && values_view(x@) == items,
            Err(e) => r matches Err(x) && x@ == e,
        },
{
    match &a.value {
        Value::List(items) => Ok(items),
        _ => Err(type_mismatch(a.pos, name, " expects list arguments")),
    }
}

fn expect_non_empty_list_arg<'b>(a: &'b Arg, name: &str) -> (r: Result<&'b Vec<Value>, EvalError>)
    ensures
        match expect_non_empty_list(a@, name@) {
            Ok(items) => r matches Ok(x) && values_view(x@) == items,
            Err(e) => r matches Err(x) && x@ == e,
        },
{
    let items = expect_list_arg(a, name)?;
    if items.len() == 0 {
        proof {
            lemma_values_view(items@);
        }
        return Err(type_mismatch(a.pos, name, " expects a non-empty list"));
    }
    proof {
        lemma_values_view(items@);
    }
    Ok(items)
}

fn expect_string_arg(a: &Arg, name: &str) -> (r: Result<usize, EvalError>)
    ensures
        err_view(r) == expect_string(a@, name@),
{
    match &a.value {
        Value::String(h) => Ok(*h),
        _ => Err(type_mismatch(a.pos, name, " expects string arguments")),
    }
}

fn expect_symbol_arg<'b>(a: &'b Arg, name: &str) -> (r: Result<&'b Vec<char>, EvalError>)
    ensures
        match expect_symbol(a@, name@) {
            Ok(s) => r matches Ok(x) && x@ == s,
            Err(e) => r matches Err(x) && x@ == e,
        },
{
    match &a.value {
        Value::Symbol(s) => Ok(s),
        _ => Err(type_mismatch(a.pos, name, " expects symbol arguments")),
    }
}

fn expect_character_arg(a: &Arg, name: &str) -> (r: Result<char, EvalError>)
    ensures
        err_view(r) == expect_character(a@, name@),
{
    match &a.value {
        Value::Character(c) => Ok(*c),
        _ => Err(type_mismatch(a.pos, name, " expects character arguments")),
    }
}

fn apply_int_op(op: IntOp, a: i64, b: i64) -> (r: i64)
    ensures
        r == int_op(op, a, b),
{
    match op {
        IntOp::Add => a.wrapping_add(b),
        IntOp::Sub => a.wrapping_sub(b),
        IntOp::Mul => a.wrapping_mul(b),
        IntOp::Min => if b < a {
            b
        } else {
            a
        },
        IntOp::Max => if b > a {
            b
        } else {
            a
        },
    }
}

fn fold_int_args(args: &Vec<Arg>, start: usize, init: i64, op: IntOp, name: &str) -> (r: Result<i64, EvalError>)
    ensures
        err_view(r) == fold_ints(args_view(args@), start as int, init, op, name@),
{
    let ghost av = args_view(args@);
    proof {
        lemma_args_view(args@);
    }
    let mut acc = init;
    let mut i = start;
    while i < args.len()
        invariant
            start <= i,
            av == args_view(args@),
            av.len() == args@.len(),
            forall|j: int| 0 <= j < args@.len() ==> #[trigger] av[j] == args@[j]@,
            fold_ints(av, i as int, acc, op, name@) == fold_ints(av, start as int, init, op, name@),
        decreases args@.len() - i,
    {
        let v = expect_integer_arg(&args[i], name)?;
        acc = apply_int_op(op, acc, v);
        i = i + 1;
    }
    Ok(acc)
}

fn compare_values(op: Comparison, a: i64, b: i64) -> (r: bool)
    ensures
        r == comparison_holds(op, a, b),
{
    match op {
        Comparison::Lt => a < b,
        Comparison::Gt => a > b,
        Comparison::Eq => a == b,
        Comparison::Le => a <= b,
        Comparison::Ge => a >= b,
    }
}

fn comparison_text(op: Comparison) -> (r: &'static str)
    ensures
        r@ == comparison_name(op),
{
    match op {
        Comparison::Lt => "<",
        Comparison::Gt => ">",
        Comparison::Eq => "=",
        Comparison::Le => "<=",
        Comparison::Ge => ">=",
    }
}

fn kind_text(k: Kind) -> (r: &'static str)
    ensures
        r@ == kind_name(k),
{
    match k {
        Kind::String => "string?",
        Kind::Number => "number?",
        Kind::Boolean => "boolean?",
        Kind::Pair => "pair?",
        Kind::Symbol => "symbol?",
        Kind::Char => "char?",
        Kind::Integer => "integer?",
        Kind::Procedure => "procedure?",
    }
}

impl Interpreter {
    fn b_fold(&self, args: &Vec<Arg>, init: i64, op: IntOp, name: &str) -> (r: Result<Value, EvalError>)
        ensures
            step_ok(self@, self@, r, b_fold(self@, args_view(args@), init, op, name@)),
    {
        proof {
            lemma_grows_refl(self@);
        }
        let t = fold_int_args(args, 0, init, op, name)?;
        Ok(Value::Integer(t))
    }

    fn b_subtract(&self, args: &Vec<Arg>, pos: SourcePos) -> (r: Result<Value, EvalError>)
        ensures
            step_ok(self@, self@, r, b_subtract(self@, args_view(args@), pos)),
    {
        proof {
            lemma_grows_refl(self@);
            lemma_args_view(args@);
        }
        if args.len() == 0 {
            return Err(arity_err(pos, "-", "expected at least 1 argument"));
        }
        let first = expect_integer_arg(&args[0], "-")?;
        if args.len() == 1 {
            return Ok(Value::Integer(0i64.wrapping_sub(first)));
        }
        let t = fold_int_args(args, 1, first, IntOp::Sub, "-")?;
        Ok(Value::Integer(t))
    }

    fn b_divide(&self, args: &Vec<Arg>, pos: SourcePos) -> (r: Result<Value, EvalError>)
        ensures
            step_ok(self@, self@, r, b_divide(self@, args_view(args@), pos)),
    {
        proof {
            lemma_grows_refl(self@);
            lemma_args_view(args@);
        }
        let ghost av = args_view(args@);
        if args.len() < 2 {
            return Err(arity_err(pos, "/", "expected at least 2 arguments"));
        }
        let mut result = expect_integer_arg(&args[0], "/")?;
        let mut i: usize = 1;
        while i < args.len()
            invariant
                1 <= i,
                av == args_view(args@),
                av.len() == args@.len(),
                forall|j: int| 0 <= j < args@.len() ==> #[trigger] av[j] == args@[j]@,
                expect_integer(av[0], "/"@) is Ok,
                div_fold(av, i as int, result) == div_fold(av, 1, expect_integer(av[0], "/"@)->Ok_0),
            decreases args@.len() - i,
        {
            let divisor = expect_integer_arg(&args[i], "/")?;
            if divisor == 0 {
                return Err(at_err(args[i].pos, "division by zero"));
            }
            result = match result.checked_div(divisor) {
                Some(q) => q,
                None => i64::MIN,
            };
            i = i + 1;
        }
        Ok(Value::Integer(result))
    }

    fn b_compare(&self, args: &Vec<Arg>, op: Comparison) -> (r: Result<Value, EvalError>)
        ensures
            step_ok(self@, self@, r, b_compare(self@, args_view(args@), op)),
    {
        proof {
            lemma_grows_refl(self@);
            lemma_args_view(args@);
        }
        let ghost av = args_view(args@);
        if args.len() <= 1 {
            return Ok(Value::Boolean(true));
        }
        let name = comparison_text(op);
        let mut previous = expect_integer_arg(&args[0], name)?;
        let mut i: usize = 1;
        while i < args.len()
            invariant
                1 <= i,
                av == args_view(args@),
                av.len() == args@.len(),
                forall|j: int| 0 <= j < args@.len() ==> #[trigger] av[j] == args@[j]@,
                name@ == comparison_name(op),
                expect_integer(av[0], comparison_name(op)) is Ok,
                compare_from(av, i as int, previous, op) == compare_from(av, 1, expect_integer(av[0], comparison_name(op))->Ok_0, op),
            decreases args@.len() - i,
        {
            let current = expect_integer_arg(&args[i], name)?;
            if !compare_values(op, previous, current) {
                return Ok(Value::Boolean(false));
            }
            previous = current;
            i = i + 1;
        }
        Ok(Value::Boolean(true))
    }

    fn b_not(&self, args: &Vec<Arg>, pos: SourcePos) -> (r: Result<Value, EvalError>)
        ensures
            step_ok(self@, self@, r, b_not(self@, args_view(args@), pos)),
    {
        proof {
            lemma_grows_refl(self@);
            lemma_args_view(args@);
        }
        if args.len() != 1 {
            return Err(arity_err(pos, "not", "expected exactly 1 argument"));
        }
        let falsy = match &args[0].value {
            Value::Boolean(b) => !*b,
            _ => false,
        };
        Ok(Value::Boolean(falsy))
    }

    fn b_cons(&self, args: &Vec<Arg>, pos: SourcePos) -> (r: Result<Value, EvalError>)
        requires
            args_ok(args_view(args@), self@),
        ensures
            step_ok(self@, self@, r, b_cons(self@, args_view(args@), pos)),
    {
        proof {
            lemma_grows_refl(self@);
            lemma_args_view(args@);
        }
        if args.len() != 2 {
            return Err(arity_err(pos, "cons", "expected exactly 2 arguments"));
        }
        let items = expect_list_arg(&args[1], "cons")?;
        let mut elements: Vec<Value> = Vec::new();
        elements.push(args[0].value.copy());
        let mut rest = copy_values_from(items, 0);
        let ghost head = elements@;
        let ghost restv = rest@;
        elements.append(&mut rest);
        proof {
            let av = args_view(args@);
            assert(items@.skip(0) =~= items@);
            lemma_values_view(head);
            lemma_values_view(restv);
            lemma_values_view(elements@);
            lemma_values_view(items@);
            assert(elements@ =~= head + restv);
            assert(values_view(elements@) =~= seq![av[0].value] + values_view(items@));
            assert(value_ok(av[1].value, self@.frames.len(), self@.strings.len()));
            assert forall|j: int| 0 <= j < values_view(elements@).len() implies value_ok(
                #[trigger] values_view(elements@)[j], self@.frames.len(), self@.strings.len()) by {
                if j > 0 {
                    lemma_value_ok_item(values_view(items@), self@.frames.len(), self@.strings.len(), j - 1);
                } else {
                    assert(value_ok(av[0].value, self@.frames.len(), self@.strings.len()));
                }
            }
            lemma_value_ok_list(values_view(elements@), self@.frames.len(), self@.strings.len());
        }
        Ok(Value::List(elements))
    }

    fn b_car(&self, args: &Vec<Arg>, pos: SourcePos) -> (r: Result<Value, EvalError>)
        requires
            args_ok(args_view(args@), self@),
        ensures
            step_ok(self@, self@, r, b_car(self@, args_view(args@), pos)),
    {
        proof {
            lemma_grows_refl(self@);
            lemma_args_view(args@);
        }
        if args.len() != 1 {
            return Err(arity_err(pos, "car", "expected exactly 1 argument"));
        }
        let items = expect_non_empty_list_arg(&args[0], "car")?;
        proof {
            lemma_values_view(items@);
            let av = args_view(args@);
            assert(value_ok(av[0].value, self@.frames.len(), self@.strings.len()));
            lemma_value_ok_item(values_view(items@), self@.frames.len(), self@.strings.len(), 0);
        }
        Ok(items[0].copy())
    }

    fn b_cxr(&self, args: &Vec<Arg>, pos: SourcePos, b: Builtin) -> (r: Result<Value, EvalError>)
        requires
            args_ok(args_view(args@), self@),
            b == Builtin::Caar || b == Builtin::Cadr || b == Builtin::Cdar || b == Builtin::Cddr || b == Builtin::Caddr,
        ensures
            step_ok(self@, self@, r, b_cxr(self@, args_view(args@), pos, b)),
    {
        proof {
            lemma_grows_refl(self@);
            lemma_args_view(args@);
        }
        if args.len() != 1 {
            return Err(arity_err(pos, b.name(), "expected exactly 1 argument"));
        }
        let path: Vec<bool> = match b {
            Builtin::Caar => vec![true, true],
            Builtin::Cadr => vec![false, true],
            Builtin::Cdar => vec![true, false],
            Builtin::Cddr => vec![false, false],
            _ => vec![false, false, true],
        };
        proof {
            assert(path@ =~= cxr_path(b));
        }
        let ghost av = args_view(args@);
        let at = args[0].pos;
        let mut v = args[0].value.copy();
        let mut i: usize = 0;
        proof {
            assert(value_ok(av[0].value, self@.frames.len(), self@.strings.len()));
        }
        while i < path.len()
            invariant
                i <= path@.len(),
                path@ == cxr_path(b),
                args@.len() == 1,
                av == args_view(args@),
                av.len() == 1,
                at == av[0].pos,
                steps_from(v@, path@, i as int, at) == steps_from(av[0].value, path@, 0, at),
                value_ok(v@, self@.frames.len(), self@.strings.len()),
            decreases path@.len() - i,
        {
            let take_car = path[i];
            let name = if take_car { "car" } else { "cdr" };
            let arg = Arg { value: v, pos: at };
            let items = match expect_non_empty_list_arg(&arg, name) {
                Ok(items) => items,
                Err(e) => {
                    proof {
                        assert(arg@ == SArg { value: v@, pos: at });
                        assert(steps_from(v@, path@, i as int, at) == Err::<SValue, ErrorView>(e@));
                    }
                    return Err(e);
                },
            };
            proof {
                lemma_values_view(items@);
                lemma_value_ok_item(values_view(items@), self@.frames.len(), self@.strings.len(), 0);
            }
            let next = if take_car {
                items[0].copy()
            } else {
                let rest_items = copy_values_from(items, 1);
                proof {
                    lemma_values_view(items@.skip(1));
                    assert(values_view(items@.skip(1)) =~= values_view(items@).skip(1));
                    assert forall|k: int| 0 <= k < values_view(items@).skip(1).len() implies value_ok(
                        #[trigger] values_view(items@).skip(1)[k], self@.frames.len(), self@.strings.len()) by {
                        lemma_value_ok_item(values_view(items@), self@.frames.len(), self@.strings.len(), k + 1);
                    }
                    lemma_value_ok_list(values_view(items@).skip(1), self@.frames.len(), self@.strings.len());
                }
                Value::List(rest_items)
            };
            v = next;
            i = i + 1;
        }
        Ok(v)
    }

    fn b_cdr(&self, args: &Vec<Arg>, pos: SourcePos) -> (r: Result<Value, EvalError>)
        requires
            args_ok(args_view(args@), self@),
        ensures
            step_ok(self@, self@, r, b_cdr(self@, args_view(args@), pos)),
    {
        proof {
            lemma_grows_refl(self@);
            lemma_args_view(args@);
        }
        if args.len() != 1 {
            return Err(arity_err(pos, "cdr", "expected exactly 1 argument"));
        }
        let items = expect_non_empty_list_arg(&args[0], "cdr")?;
        let rest = copy_values_from(items, 1);
        proof {
            lemma_values_view(items@);
            lemma_values_view(items@.skip(1));
            assert(values_view(items@.skip(1)) =~= values_view(items@).skip(1));
            let av = args_view(args@);
            assert(value_ok(av[0].value, self@.frames.len(), self@.strings.len()));
            assert forall|j: int| 0 <= j < values_view(rest@).len() implies value_ok(
                #[trigger] values_view(rest@)[j], self@.frames.len(), self@.strings.len()) by {
                lemma_value_ok_item(values_view(items@), self@.frames.len(), self@.strings.len(), j + 1);
            }
            lemma_value_ok_list(values_view(rest@), self@.frames.len(), self@.strings.len());
        }
        Ok(Value::List(rest))
    }

    fn b_null(&self, args: &Vec<Arg>, pos: SourcePos) -> (r: Result<Value, EvalError>)
        ensures
            step_ok(self@, self@, r, b_null(self@, args_view(args@), pos)),
    {
        proof {
            lemma_grows_refl(self@);
            lemma_args_view(args@);
        }
        if args.len() != 1 {
            return Err(arity_err(pos, "null?", "expected exactly 1 argument"));
        }
        let empty = match &args[0].value {
            Value::List(items) => {
                proof {
                    lemma_values_view(items@);
                }
                items.len() == 0
            },
            _ => false,
        };
        Ok(Value::Boolean(empty))
    }

    fn b_list(&self, args: &Vec<Arg>) -> (r: Result<Value, EvalError>)
        requires
            args_ok(args_view(args@), self@),
        ensures
            step_ok(self@, self@, r, done(self@, Ok(SValue::List(arg_values(args_view(args@)))))),
    {
        proof {
            lemma_grows_refl(self@);
            lemma_args_view(args@);
        }
        let ghost av = args_view(args@);
        let mut elements: Vec<Value> = Vec::new();
        let mut i: usize = 0;
        while i < args.len()
            invariant
                i <= args@.len(),
                av == args_view(args@),
                av.len() == args@.len(),
                forall|j: int| 0 <= j < args@.len() ==> #[trigger] av[j] == args@[j]@,
                values_view(elements@) == arg_values(av).take(i as int),
            decreases args@.len() - i,
        {
            let v = args[i].value.copy();
            proof {
                lemma_values_view_push(elements@, v);
                assert(arg_values(av).take(i + 1) =~= arg_values(av).take(i as int).push(av[i as int].value));
            }
            elements.push(v);
            i = i + 1;
        }
        proof {
            assert(arg_values(av).take(i as int) =~= arg_values(av));
            assert forall|j: int| 0 <= j < arg_values(av).len() implies value_ok(
                #[trigger] arg_values(av)[j], self@.frames.len(), self@.strings.len()) by {
                assert(value_ok(av[j].value, self@.frames.len(), self@.strings.len()));
            }
            lemma_value_ok_list(arg_values(av), self@.frames.len(), self@.strings.len());
        }
        Ok(Value::List(elements))
    }

    fn b_length(&self, args: &Vec<Arg>, pos: SourcePos) -> (r: Result<Value, EvalError>)
        ensures
            step_ok(self@, self@, r, b_length(self@, args_view(args@), pos)),
    {
        proof {
            lemma_grows_refl(self@);
            lemma_args_view(args@);
        }
        if args.len() != 1 {
            return Err(arity_err(pos, "length", "expected exactly 1 argument"));
        }
        let items = expect_list_arg(&args[0], "length")?;
        proof {
            lemma_values_view(items@);
        }
        Ok(Value::Integer(items.len() as i64))
    }

    fn b_append(&self, args: &Vec<Arg>) -> (r: Result<Value, EvalError>)
        requires
            args_ok(args_view(args@), self@),
        ensures
            step_ok(self@, self@, r, b_append(self@, args_view(args@))),
    {
        proof {
            lemma_grows_refl(self@);
            lemma_args_view(args@);
        }
        let ghost av = args_view(args@);
        let ghost nf = self@.frames.len();
        let ghost ns = self@.strings.len();
        let mut combined: Vec<Value> = Vec::new();
        let mut i: usize = 0;
        while i < args.len()
            invariant
                i <= args@.len(),
                av == args_view(args@),
                av.len() == args@.len(),
                forall|j: int| 0 <= j < args@.len() ==> #[trigger] av[j] == args@[j]@,
                args_ok(av, self@),
                nf == self@.frames.len(),
                ns == self@.strings.len(),
                append_from(av, i as int, values_view(combined@)) == append_from(av, 0, Seq::empty()),
                values_ok(values_view(combined@), nf, ns),
            decreases args@.len() - i,
        {
            let items = expect_list_arg(&args[i], "append")?;
            let mut more = copy_values_from(items, 0);
            let ghost before = combined@;
            let ghost moreview = more@;
            combined.append(&mut more);
            proof {
                assert(items@.skip(0) =~= items@);
                lemma_values_view(before);
                lemma_values_view(moreview);
                lemma_values_view(combined@);
                lemma_values_view(items@);
                assert(combined@ =~= before + moreview);
                assert(values_view(combined@) =~= values_view(before) + values_view(items@));
                assert(value_ok(av[i as int].value, nf, ns));
                assert forall|j: int| 0 <= j < values_view(combined@).len() implies value_ok(
                    #[trigger] values_view(combined@)[j], nf, ns) by {
                    if j >= values_view(before).len() {
                        lemma_value_ok_item(values_view(items@), nf, ns, j - values_view(before).len());
                    }
                }
            }
            i = i + 1;
        }
        proof {
            lemma_value_ok_list(values_view(combined@), nf, ns);
        }
        Ok(Value::List(combined))
    }

    fn b_kind(&self, args: &Vec<Arg>, pos: SourcePos, k: Kind) -> (r: Result<Value, EvalError>)
        ensures
            step_ok(self@, self@, r, b_kind(self@, args_view(args@), pos, k)),
    {
        proof {
            lemma_grows_refl(self@);
            lemma_args_view(args@);
        }
        if args.len() != 1 {
            return Err(arity_err(pos, kind_text(k), "expected exactly 1 argument"));
        }
        let holds = match (k, &args[0].value) {
            (Kind::String, Value::String(_)) => true,
            (Kind::Number, Value::Integer(_)) => true,
            (Kind::Boolean, Value::Boolean(_)) => true,
            (Kind::Pair, Value::List(items)) => {
                proof {
                    lemma_values_view(items@);
                }
                items.len() > 0
            },
            (Kind::Symbol, Value::Symbol(_)) => true,
            (Kind::Char, Value::Character(_)) => true,
            (Kind::Integer, Value::Integer(_)) => true,
            (Kind::Procedure, Value::Builtin(_)) => true,
            (Kind::Procedure, Value::Closure(_)) => true,
            _ => false,
        };
        Ok(Value::Boolean(holds))
    }

    fn b_print(&mut self, args: &Vec<Arg>, pos: SourcePos, display: bool) -> (r: Result<Value, EvalError>)
        requires
            old(self).ok(),
            args_ok(args_view(args@), old(self)@),
        ensures
            final(self).ok(),
            step_ok(old(self)@, final(self)@, r, b_print(old(self)@, args_view(args@), pos, display)),
    {
        proof {
            lemma_grows_refl(self@);
            lemma_args_view(args@);
        }
        if args.len() != 1 {
            if display {
                return Err(arity_err(pos, "display", "expected exactly 1 argument"));
            } else {
                return Err(arity_err(pos, "write", "expected exactly 1 argument"));
            }
        }
        proof {
            assert(value_ok(args_view(args@)[0].value, self@.frames.len(), self@.strings.len()));
        }
        let ghost nf = self@.frames.len();
        args[0].value.render_into(&self.strings, display, &mut self.output, Ghost(nf));
        proof {
            assert(old(self)@.output.is_prefix_of(self@.output)) by {
                assert(self@.output.subrange(0, old(self)@.output.len() as int) =~= old(self)@.output);
            }
            assert(self@ =~= SState { output: old(self)@.output + render(args_view(args@)[0].value, old(self)@.strings, display), ..old(self)@ });
        }
        Ok(Value::Void)
    }

    fn b_error(&self, args: &Vec<Arg>) -> (r: Result<Value, EvalError>)
        requires
            self.ok(),
            args_ok(args_view(args@), self@),
        ensures
            step_ok(self@, self@, r, b_error(self@, args_view(args@))),
    {
        proof {
            lemma_grows_refl(self@);
            lemma_args_view(args@);
        }
        let ghost av = args_view(args@);
        let ghost sv = self@.strings;
        if args.len() == 0 {
            return Err(EvalError::message("error"));
        }
        let ghost nf = self@.frames.len();
        proof {
            assert(value_ok(av[0].value, self@.frames.len(), self@.strings.len()));
        }
        let mut text: Vec<char> = Vec::new();
        args[0].value.render_into(&self.strings, true, &mut text, Ghost(nf));
        let mut i: usize = 1;
        proof {
            assert(text@ =~= render(av[0].value, sv, true) + irritants_text(av, 1, sv));
        }
        while i < args.len()
            invariant
                1 <= i <= args@.len(),
                av == args_view(args@),
                av.len() == args@.len(),
                forall|j: int| 0 <= j < args@.len() ==> #[trigger] av[j] == args@[j]@,
                args_ok(av, self@),
                sv == self@.strings,
                sv == strings_view(self.strings@),
                nf == self@.frames.len(),
                text@ == render(av[0].value, sv, true) + irritants_text(av, i as int, sv),
            decreases args@.len() - i,
        {
            let ghost before = text@;
            text.push(' ');
            proof {
                assert(value_ok(av[i as int].value, nf, self@.strings.len()));
            }
            args[i].value.render_into(&self.strings, true, &mut text, Ghost(nf));
            proof {
                assert(irritants_text(av, i + 1, sv) == irritants_text(av, i as int, sv) + " "@ + render(av[i as int].value, sv, true));
                reveal_strlit(" ");
                assert(text@ =~= render(av[0].value, sv, true) + irritants_text(av, i + 1, sv));
            }
            i = i + 1;
        }
        Err(EvalError::Message(chars_to_string(&text)))
    }

    fn b_newline(&mut self, args: &Vec<Arg>, pos: SourcePos) -> (r: Result<Value, EvalError>)
        requires
            old(self).ok(),
        ensures
            final(self).ok(),
            step_ok(old(self)@, final(self)@, r, b_newline(old(self)@, args_view(args@), pos)),
    {
        proof {
            lemma_grows_refl(self@);
            lemma_args_view(args@);
        }
        if args.len() != 0 {
            return Err(arity_err(pos, "newline", "expected exactly 0 arguments"));
        }
        self.output.push('\n');
        proof {
            assert(old(self)@.output.is_prefix_of(self@.output)) by {
                assert(self@.output.subrange(0, old(self)@.output.len() as int) =~= old(self)@.output);
            }
        }
        Ok(Value::Void)
    }

    /// A new string with the given contents, as a value.
    fn new_string_value(&mut self, s: Vec<char>) -> (r: Result<Value, EvalError>)
        requires
            old(self).ok(),
        ensures
            final(self).ok(),
            step_ok(old(self)@, final(self)@, r, new_string(old(self)@, s@)),
    {
        let h = self.alloc_string(s);
        Ok(Value::String(h))
    }

    fn b_string_append(&mut self, args: &Vec<Arg>) -> (r: Result<Value, EvalError>)
        requires
            old(self).ok(),
            args_ok(args_view(args@), old(self)@),
        ensures
            final(self).ok(),
            step_ok(old(self)@, final(self)@, r, b_string_append(old(self)@, args_view(args@))),
    {
        proof {
            lemma_grows_refl(self@);
            lemma_args_view(args@);
        }
        let ghost av = args_view(args@);
        let mut builder: Vec<char> = Vec::new();
        let mut i: usize = 0;
        while i < args.len()
            invariant
                i <= args@.len(),
                av == args_view(args@),
                av.len() == args@.len(),
                forall|j: int| 0 <= j < args@.len() ==> #[trigger] av[j] == args@[j]@,
                args_ok(av, self@),
                self.ok(),
                string_append_from(self@.strings, av, i as int, builder@) == string_append_from(self@.strings, av, 0, Seq::empty()),
            decreases args@.len() - i,
        {
            let h = expect_string_arg(&args[i], "string-append")?;
            proof {
                assert(value_ok(av[i as int].value, self@.frames.len(), self@.strings.len()));
                self.lemma_frames_view();
            }
            push_all(&mut builder, &self.strings[h]);
            i = i + 1;
        }
        self.new_string_value(builder)
    }

    fn b_string_length(&self, args: &Vec<Arg>, pos: SourcePos) -> (r: Result<Value, EvalError>)
        requires
            self.ok(),
            args_ok(args_view(args@), self@),
        ensures
            step_ok(self@, self@, r, b_string_length(self@, args_view(args@), pos)),
    {
        proof {
            lemma_grows_refl(self@);
            lemma_args_view(args@);
            self.lemma_frames_view();
        }
        if args.len() != 1 {
            return Err(arity_err(pos, "string-length", "expected exactly 1 argument"));
        }
        let h = expect_string_arg(&args[0], "string-length")?;
        proof {
            assert(value_ok(args_view(args@)[0].value, self@.frames.len(), self@.strings.len()));
        }
        Ok(Value::Integer(self.strings[h].len() as i64))
    }

    fn b_substring(&mut self, args: &Vec<Arg>, pos: SourcePos) -> (r: Result<Value, EvalError>)
        requires
            old(self).ok(),
            args_ok(args_view(args@), old(self)@),
        ensures
            final(self).ok(),
            step_ok(old(self)@, final(self)@, r, b_substring(old(self)@, args_view(args@), pos)),
    {
        proof {
            lemma_grows_refl(self@);
            lemma_args_view(args@);
            self.lemma_frames_view();
        }
        if args.len() != 3 {
            return Err(arity_err(pos, "substring", "expected exactly 3 arguments"));
        }
        let h = expect_string_arg(&args[0], "substring")?;
        let start = expect_integer_arg(&args[1], "substring")?;
        let end = expect_integer_arg(&args[2], "substring")?;
        proof {
            assert(value_ok(args_view(args@)[0].value, self@.frames.len(), self@.strings.len()));
        }
        let len = self.strings[h].len();
        if start < 0 || (start as u64) > (len as u64) {
            return Err(at_err(args[1].pos, "substring: start index out of range"));
        }
        if end < start || (end as u64) > (len as u64) {
            return Err(at_err(args[2].pos, "substring: end index out of range"));
        }
        let mut piece: Vec<char> = Vec::new();
        let first: usize = start as usize;
        let mut i: usize = first;
        let stop: usize = end as usize;
        let ghost whole = self.strings@[h as int]@;
        while i < stop
            invariant
                first <= i <= stop,
                first == start,
                stop <= whole.len(),
                h < self.strings@.len(),
                whole == self.strings@[h as int]@,
                piece@ == whole.subrange(first as int, i as int),
            decreases stop - i,
        {
            piece.push(self.strings[h][i]);
            proof {
                assert(whole.subrange(first as int, i + 1) =~= whole.subrange(first as int, i as int).push(whole[i as int]));
            }
            i = i + 1;
        }
        self.new_string_value(piece)
    }

    fn b_string_to_number(&self, args: &Vec<Arg>, pos: SourcePos) -> (r: Result<Value, EvalError>)
        requires
            self.ok(),
            args_ok(args_view(args@), self@),
        ensures
            step_ok(self@, self@, r, b_string_to_number(self@, args_view(args@), pos)),
    {
        proof {
            lemma_grows_refl(self@);
            lemma_args_view(args@);
            self.lemma_frames_view();
        }
        if args.len() != 1 {
            return Err(arity_err(pos, "string->number", "expected exactly 1 argument"));
        }
        let h = expect_string_arg(&args[0], "string->number")?;
        proof {
            assert(value_ok(args_view(args@)[0].value, self@.frames.len(), self@.strings.len()));
        }
        match parse_i64_chars(self.strings[h].as_slice()) {
            Some(v) => Ok(Value::Integer(v)),
            None => Ok(Value::Boolean(false)),
        }
    }

    fn b_number_to_string(&mut self, args: &Vec<Arg>, pos: SourcePos) -> (r: Result<Value, EvalError>)
        requires
            old(self).ok(),
        ensures
            final(self).ok(),
            step_ok(old(self)@, final(self)@, r, b_number_to_string(old(self)@, args_view(args@), pos)),
    {
        proof {
            lemma_grows_refl(self@);
            lemma_args_view(args@);
        }
        if args.len() != 1 {
            return Err(arity_err(pos, "number->string", "expected exactly 1 argument"));
        }
        let v = expect_integer_arg(&args[0], "number->string")?;
        self.new_string_value(i64_text(v))
    }

    fn b_symbol_to_string(&mut self, args: &Vec<Arg>, pos: SourcePos) -> (r: Result<Value, EvalError>)
        requires
            old(self).ok(),
        ensures
            final(self).ok(),
            step_ok(old(self)@, final(self)@, r, b_symbol_to_string(old(self)@, args_view(args@), pos)),
    {
        proof {
            lemma_grows_refl(self@);
            lemma_args_view(args@);
        }
        if args.len() != 1 {
            return Err(arity_err(pos, "symbol->string", "expected exactly 1 argument"));
        }
        let name = expect_symbol_arg(&args[0], "symbol->string")?;
        self.new_string_value(name.clone())
    }

    fn b_string_to_symbol(&self, args: &Vec<Arg>, pos: SourcePos) -> (r: Result<Value, EvalError>)
        requires
            self.ok(),
            args_ok(args_view(args@), self@),
        ensures
            step_ok(self@, self@, r, b_string_to_symbol(self@, args_view(args@), pos)),
    {
        proof {
            lemma_grows_refl(self@);
            lemma_args_view(args@);
            self.lemma_frames_view();
        }
        if args.len() != 1 {
            return Err(arity_err(pos, "string->symbol", "expected exactly 1 argument"));
        }
        let h = expect_string_arg(&args[0], "string->symbol")?;
        proof {
            assert(value_ok(args_view(args@)[0].value, self@.frames.len(), self@.strings.len()));
        }
        Ok(Value::Symbol(self.strings[h].clone()))
    }

    fn b_string_ref(&self, args: &Vec<Arg>, pos: SourcePos) -> (r: Result<Value, EvalError>)
        requires
            self.ok(),
            args_ok(args_view(args@), self@),
        ensures
            step_ok(self@, self@, r, b_string_ref(self@, args_view(args@), pos)),
    {
        proof {
            lemma_grows_refl(self@);
            lemma_args_view(args@);
            self.lemma_frames_view();
        }
        if args.len() != 2 {
            return Err(arity_err(pos, "string-ref", "expected exactly 2 arguments"));
        }
        let h = expect_string_arg(&args[0], "string-ref")?;
        let index = expect_integer_arg(&args[1], "string-ref")?;
        proof {
            assert(value_ok(args_view(args@)[0].value, self@.frames.len(), self@.strings.len()));
        }
        if index < 0 || (index as u64) >= (self.strings[h].len() as u64) {
            return Err(at_err(args[1].pos, "string-ref: index out of range"));
        }
        let k: usize = index as usize;
        proof {
            assert(k == index);
            assert(k < self.strings@[h as int]@.len());
            assert(self@.strings[h as int] == self.strings@[h as int]@);
        }
        let c = self.strings[h][k];
        proof {
            let av = args_view(args@);
            assert(expect_string(av[0], "string-ref"@) == Ok::<usize, ErrorView>(h));
            assert(expect_integer(av[1], "string-ref"@) == Ok::<i64, ErrorView>(index));
            assert(c == self@.strings[h as int][index as int]);
        }
        Ok(Value::character(c))
    }

    fn b_string_set(&mut self, args: &Vec<Arg>, pos: SourcePos) -> (r: Result<Value, EvalError>)
        requires
            old(self).ok(),
            args_ok(args_view(args@), old(self)@),
        ensures
            final(self).ok(),
            step_ok(old(self)@, final(self)@, r, b_string_set(old(self)@, args_view(args@), pos)),
    {
        proof {
            lemma_grows_refl(self@);
            lemma_args_view(args@);
            self.lemma_frames_view();
        }
        if args.len() != 3 {
            return Err(arity_err(pos, "string-set!", "expected exactly 3 arguments"));
        }
        let h = expect_string_arg(&args[0], "string-set!")?;
        let index = expect_integer_arg(&args[1], "string-set!")?;
        let character = expect_character_arg(&args[2], "string-set!")?;
        proof {
            assert(value_ok(args_view(args@)[0].value, self@.frames.len(), self@.strings.len()));
        }
        if index < 0 || (index as u64) >= (self.strings[h].len() as u64) {
            return Err(at_err(args[1].pos, "string-set!: index out of range"));
        }
        let ghost old_strings = self.strings@;
        let ghost old_st = self@;
        self.strings[h][index as usize] = character;
        proof {
            assert(strings_view(self.strings@) =~= strings_view(old_strings).update(
                h as int, strings_view(old_strings)[h as int].update(index as int, character)));
            assert(self@.frames == old_st.frames);
            assert(self@.output == old_st.output);
            assert(state_ok(self@)) by {
                assert forall|i: int| 0 <= i < self@.frames.len() implies super::env::frame_ok(
                    #[trigger] self@.frames[i], i, self@.frames.len(), self@.strings.len()) by {
                    assert(super::env::frame_ok(old_st.frames[i], i, old_st.frames.len(), old_st.strings.len()));
                }
            }
            lemma_grows_refl(old_st);
        }
        Ok(Value::Void)
    }

    fn b_string_copy(&mut self, args: &Vec<Arg>, pos: SourcePos) -> (r: Result<Value, EvalError>)
        requires
            old(self).ok(),
            args_ok(args_view(args@), old(self)@),
        ensures
            final(self).ok(),
            step_ok(old(self)@, final(self)@, r, b_string_copy(old(self)@, args_view(args@), pos)),
    {
        proof {
            lemma_grows_refl(self@);
            lemma_args_view(args@);
            self.lemma_frames_view();
        }
        if args.len() != 1 {
            return Err(arity_err(pos, "string-copy", "expected exactly 1 argument"));
        }
        let h = expect_string_arg(&args[0], "string-copy")?;
        proof {
            assert(value_ok(args_view(args@)[0].value, self@.frames.len(), self@.strings.len()));
        }
        let copy = self.strings[h].clone();
        self.new_string_value(copy)
    }

    fn b_string_case(&mut self, args: &Vec<Arg>, pos: SourcePos, upper: bool) -> (r: Result<Value, EvalError>)
        requires
            old(self).ok(),
            args_ok(args_view(args@), old(self)@),
        ensures
            final(self).ok(),
            step_ok(old(self)@, final(self)@, r, b_string_case(old(self)@, args_view(args@), pos, upper)),
    {
        proof {
            lemma_grows_refl(self@);
            lemma_args_view(args@);
            self.lemma_frames_view();
        }
        let name = if upper { "string-upcase" } else { "string-downcase" };
        if args.len() != 1 {
            return Err(arity_err(pos, name, "expected exactly 1 argument"));
        }
        let h = expect_string_arg(&args[0], name)?;
        proof {
            assert(value_ok(args_view(args@)[0].value, self@.frames.len(), self@.strings.len()));
        }
        let text = if upper {
            to_upper_text(self.strings[h].as_slice())
        } else {
            to_lower_text(self.strings[h].as_slice())
        };
        self.new_string_value(text)
    }

    fn b_string_ci_equal(&self, args: &Vec<Arg>, pos: SourcePos) -> (r: Result<Value, EvalError>)
        requires
            self.ok(),
            args_ok(args_view(args@), self@),
        ensures
            step_ok(self@, self@, r, b_string_ci_equal(self@, args_view(args@), pos)),
    {
        proof {
            lemma_grows_refl(self@);
            lemma_args_view(args@);
            self.lemma_frames_view();
        }
        if args.len() != 2 {
            return Err(arity_err(pos, "string-ci=?", "expected exactly 2 arguments"));
        }
        let a = expect_string_arg(&args[0], "string-ci=?")?;
        let b = expect_string_arg(&args[1], "string-ci=?")?;
        proof {
            assert(value_ok(args_view(args@)[0].value, self@.frames.len(), self@.strings.len()));
            assert(value_ok(args_view(args@)[1].value, self@.frames.len(), self@.strings.len()));
        }
        let la = to_lower_text(self.strings[a].as_slice());
        let lb = to_lower_text(self.strings[b].as_slice());
        Ok(Value::Boolean(chars_eq(&la, &lb)))
    }

    fn b_make_string(&mut self, args: &Vec<Arg>, pos: SourcePos) -> (r: Result<Value, EvalError>)
        requires
            old(self).ok(),
        ensures
            final(self).ok(),
            step_ok(old(self)@, final(self)@, r, b_make_string(old(self)@, args_view(args@), pos)),
    {
        proof {
            lemma_grows_refl(self@);
            lemma_args_view(args@);
        }
        if args.len() != 1 && args.len() != 2 {
            return Err(arity_err(pos, "make-string", "expected 1 or 2 arguments"));
        }
        let n = expect_integer_arg(&args[0], "make-string")?;
        let c = if args.len() == 2 {
            expect_character_arg(&args[1], "make-string")?
        } else {
            '\0'
        };
        if n < 0 {
            return Err(type_mismatch(args[0].pos, "make-string", " expects a non-negative length"));
        }
        let mut text: Vec<char> = Vec::new();
        let mut i: i64 = 0;
        while i < n
            invariant
                0 <= i <= n,
                text@ == Seq::new(i as nat, |k: int| c),
            decreases n - i,
        {
            text.push(c);
            i = i + 1;
            proof {
                assert(text@ =~= Seq::new(i as nat, |k: int| c));
            }
        }
        self.new_string_value(text)
    }

    fn b_expt(&self, args: &Vec<Arg>, pos: SourcePos) -> (r: Result<Value, EvalError>)
        ensures
            step_ok(self@, self@, r, b_expt(self@, args_view(args@), pos)),
    {
        proof {
            lemma_grows_refl(self@);
            lemma_args_view(args@);
        }
        if args.len() != 2 {
            return Err(arity_err(pos, "expt", "expected exactly 2 arguments"));
        }
        let base = expect_integer_arg(&args[0], "expt")?;
        let e = expect_integer_arg(&args[1], "expt")?;
        if e < 0 {
            return Ok(Value::Integer(0));
        }
        let exp: u32 = #[verifier::truncate] (e as u32);
        Ok(Value::Integer(wrapping_power(base, exp)))
    }

    fn b_same(&self, args: &Vec<Arg>, pos: SourcePos, deep: bool, name: &str) -> (r: Result<Value, EvalError>)
        requires
            self.ok(),
            args_ok(args_view(args@), self@),
        ensures
            step_ok(self@, self@, r, b_same(self@, args_view(args@), pos, deep, name@)),
    {
        proof {
            lemma_grows_refl(self@);
            lemma_args_view(args@);
        }
        if args.len() != 2 {
            return Err(arity_err(pos, name, "expected exactly 2 arguments"));
        }
        if deep {
            proof {
                assert(value_ok(args_view(args@)[0].value, self@.frames.len(), self@.strings.len()));
                assert(value_ok(args_view(args@)[1].value, self@.frames.len(), self@.strings.len()));
                lemma_value_ok_strings_within(args@[0].value@, self@.frames.len(), self@.strings.len());
                lemma_value_ok_strings_within(args@[1].value@, self@.frames.len(), self@.strings.len());
                self.lemma_frames_view();
                assert(self.strings@.map_values(|s: Vec<char>| s@) =~= self@.strings);
            }
            Ok(Value::Boolean(is_equal(&self.strings, &args[0].value, &args[1].value)))
        } else {
            Ok(Value::Boolean(is_eqv(&args[0].value, &args[1].value)))
        }
    }

    fn b_char_op(&self, args: &Vec<Arg>, pos: SourcePos, op: CharOp) -> (r: Result<Value, EvalError>)
        ensures
            step_ok(self@, self@, r, b_char_op(self@, args_view(args@), pos, op)),
    {
        proof {
            lemma_grows_refl(self@);
            lemma_args_view(args@);
        }
        let name = match op {
            CharOp::Numeric => "char-numeric?",
            CharOp::Upcase => "char-upcase",
            CharOp::Downcase => "char-downcase",
            CharOp::ToInteger => "char->integer",
            CharOp::Alphabetic => "char-alphabetic?",
        };
        if args.len() != 1 {
            return Err(arity_err(pos, name, "expected exactly 1 argument"));
        }
        let c = expect_character_arg(&args[0], name)?;
        let v = match op {
            CharOp::Numeric => Value::Boolean(is_digit_char(c)),
            CharOp::Upcase => {
                if 'a' <= c && c <= 'z' {
                    let code: u32 = c as u32;
                    let upper: u8 = (code - 32) as u8;
                    Value::Character(upper as char)
                } else {
                    Value::Character(c)
                }
            },
            CharOp::Downcase => {
                if 'A' <= c && c <= 'Z' {
                    let code: u32 = c as u32;
                    let lower: u8 = (code + 32) as u8;
                    Value::Character(lower as char)
                } else {
                    Value::Character(c)
                }
            },
            CharOp::ToInteger => Value::Integer(c as u32 as i64),
            CharOp::Alphabetic => Value::Boolean(is_alphabetic(c)),
        };
        Ok(v)
    }

    fn b_integer_to_char(&self, args: &Vec<Arg>, pos: SourcePos) -> (r: Result<Value, EvalError>)
        ensures
            step_ok(self@, self@, r, b_integer_to_char(self@, args_view(args@), pos)),
    {
        proof {
            lemma_grows_refl(self@);
            lemma_args_view(args@);
        }
        if args.len() != 1 {
            return Err(arity_err(pos, "integer->char", "expected exactly 1 argument"));
        }
        let n = expect_integer_arg(&args[0], "integer->char")?;
        let u: u32 = #[verifier::truncate] (n as u32);
        match char_from_code(u) {
            Some(c) => Ok(Value::Character(c)),
            None => Err(type_mismatch(args[0].pos, "integer->char", " expects a valid code point")),
        }
    }

    fn b_gcd(&self, args: &Vec<Arg>, pos: SourcePos) -> (r: Result<Value, EvalError>)
        ensures
            step_ok(self@, self@, r, b_gcd(self@, args_view(args@), pos)),
    {
        proof {
            lemma_grows_refl(self@);
            lemma_args_view(args@);
        }
        if args.len() != 2 {
            return Err(arity_err(pos, "gcd", "expected exactly 2 arguments"));
        }
        let a = expect_integer_arg(&args[0], "gcd")?;
        let b = expect_integer_arg(&args[1], "gcd")?;
        let g = gcd_u64(magnitude_u64(a), magnitude_u64(b));
        Ok(Value::Integer(#[verifier::truncate] (g as i64)))
    }

    fn b_lcm(&self, args: &Vec<Arg>, pos: SourcePos) -> (r: Result<Value, EvalError>)
        ensures
            step_ok(self@, self@, r, b_lcm(self@, args_view(args@), pos)),
    {
        proof {
            lemma_grows_refl(self@);
            lemma_args_view(args@);
        }
        if args.len() != 2 {
            return Err(arity_err(pos, "lcm", "expected exactly 2 arguments"));
        }
        let a = expect_integer_arg(&args[0], "lcm")?;
        let b = expect_integer_arg(&args[1], "lcm")?;
        if a == 0 && b == 0 {
            return Ok(Value::Integer(0));
        }
        let g = gcd_u64(magnitude_u64(a), magnitude_u64(b));
        let gi: i64 = #[verifier::truncate] (g as i64);
        let q = match a.checked_div(gi) {
            Some(q) => q,
            None => i64::MIN,
        };
        let p = q.wrapping_mul(b);
        let v = if p < 0 { 0i64.wrapping_sub(p) } else { p };
        Ok(Value::Integer(v))
    }

    fn b_char_compare(&self, args: &Vec<Arg>, pos: SourcePos, less: bool) -> (r: Result<Value, EvalError>)
        ensures
            step_ok(self@, self@, r, b_char_compare(self@, args_view(args@), pos, less)),
    {
        proof {
            lemma_grows_refl(self@);
            lemma_args_view(args@);
        }
        let name = if less { "char<?" } else { "char=?" };
        if args.len() != 2 {
            return Err(arity_err(pos, name, "expected exactly 2 arguments"));
        }
        let a = expect_character_arg(&args[0], name)?;
        let b = expect_character_arg(&args[1], name)?;
        Ok(Value::Boolean(if less { a < b } else { a == b }))
    }

    /// Whether two values are the same, by `equal?` when `deep` and by `eqv?` otherwise.
    fn same_values(&self, a: &Value, b: &Value, deep: bool) -> (r: bool)
        requires
            self.ok(),
            value_ok(a@, self@.frames.len(), self@.strings.len()),
            value_ok(b@, self@.frames.len(), self@.strings.len()),
        ensures
            r == same_as(a@, b@, deep, self@.strings),
    {
        if deep {
            proof {
                lemma_value_ok_strings_within(a@, self@.frames.len(), self@.strings.len());
                lemma_value_ok_strings_within(b@, self@.frames.len(), self@.strings.len());
                self.lemma_frames_view();
                assert(self.strings@.map_values(|s: Vec<char>| s@) =~= self@.strings);
            }
            is_equal(&self.strings, a, b)
        } else {
            is_eqv(a, b)
        }
    }

    fn b_list_ref(&self, args: &Vec<Arg>, pos: SourcePos) -> (r: Result<Value, EvalError>)
        requires
            args_ok(args_view(args@), self@),
        ensures
            step_ok(self@, self@, r, b_list_ref(self@, args_view(args@), pos)),
    {
        proof {
            lemma_grows_refl(self@);
            lemma_args_view(args@);
        }
        if args.len() != 2 {
            return Err(arity_err(pos, "list-ref", "expected exactly 2 arguments"));
        }
        let items = expect_list_arg(&args[0], "list-ref")?;
        let k = expect_integer_arg(&args[1], "list-ref")?;
        proof {
            lemma_values_view(items@);
        }
        if k < 0 || k as u64 >= items.len() as u64 {
            return Err(EvalError::at(args[1].pos, &str_chars("list-ref: index out of range")));
        }
        proof {
            let av = args_view(args@);
            assert(value_ok(av[0].value, self@.frames.len(), self@.strings.len()));
            lemma_value_ok_item(values_view(items@), self@.frames.len(), self@.strings.len(), k as int);
        }
        Ok(items[k as usize].copy())
    }

    fn b_list_tail(&self, args: &Vec<Arg>, pos: SourcePos) -> (r: Result<Value, EvalError>)
        requires
            args_ok(args_view(args@), self@),
        ensures
            step_ok(self@, self@, r, b_list_tail(self@, args_view(args@), pos)),
    {
        proof {
            lemma_grows_refl(self@);
            lemma_args_view(args@);
        }
        if args.len() != 2 {
            return Err(arity_err(pos, "list-tail", "expected exactly 2 arguments"));
        }
        proof {
            let av = args_view(args@);
            assert(value_ok(av[0].value, self@.frames.len(), self@.strings.len()));
        }
        let k = expect_integer_arg(&args[1], "list-tail")?;
        if k == 0 {
            return Ok(args[0].value.copy());
        }
        match &args[0].value {
            Value::List(items) => {
                proof {
                    lemma_values_view(items@);
                }
                if 0 < k && k as u64 <= items.len() as u64 {
                    let rest = copy_values_from(items, k as usize);
                    proof {
                        let kk = k as int;
                        lemma_values_view(items@.skip(kk));
                        assert(values_view(items@.skip(kk)) =~= values_view(items@).skip(kk));
                        assert forall|j: int| 0 <= j < values_view(rest@).len() implies value_ok(
                            #[trigger] values_view(rest@)[j], self@.frames.len(), self@.strings.len()) by {
                            lemma_value_ok_item(values_view(items@), self@.frames.len(), self@.strings.len(), j + kk);
                        }
                        lemma_value_ok_list(values_view(rest@), self@.frames.len(), self@.strings.len());
                    }
                    Ok(Value::List(rest))
                } else {
                    Err(EvalError::at(args[1].pos, &str_chars("list-tail: index out of range")))
                }
            },
            _ => Err(EvalError::at(args[1].pos, &str_chars("list-tail: index out of range"))),
        }
    }

    fn b_list_shape(&self, args: &Vec<Arg>, pos: SourcePos, reverse: bool) -> (r: Result<Value, EvalError>)
        requires
            args_ok(args_view(args@), self@),
        ensures
            step_ok(self@, self@, r, b_list_shape(self@, args_view(args@), pos, reverse)),
    {
        proof {
            lemma_grows_refl(self@);
            lemma_args_view(args@);
        }
        let name = if reverse { "reverse" } else { "list?" };
        if args.len() != 1 {
            return Err(arity_err(pos, name, "expected exactly 1 argument"));
        }
        if !reverse {
            let is_list = match &args[0].value {
                Value::List(_) => true,
                _ => false,
            };
            return Ok(Value::Boolean(is_list));
        }
        let items = expect_list_arg(&args[0], name)?;
        let ghost vs = values_view(items@);
        proof {
            lemma_values_view(items@);
            let av = args_view(args@);
            assert(value_ok(av[0].value, self@.frames.len(), self@.strings.len()));
        }
        let mut out: Vec<Value> = Vec::new();
        let mut i: usize = items.len();
        while i > 0
            invariant
                i <= items@.len(),
                vs == values_view(items@),
                vs.len() == items@.len(),
                forall|j: int| 0 <= j < items@.len() ==> #[trigger] vs[j] == items@[j]@,
                values_view(out@) =~= Seq::new((items@.len() - i) as nat, |j: int| vs[vs.len() - 1 - j]),
            decreases i,
        {
            i = i - 1;
            let c = items[i].copy();
            proof {
                lemma_values_view_push(out@, c);
            }
            out.push(c);
        }
        proof {
            assert forall|j: int| 0 <= j < values_view(out@).len() implies value_ok(
                #[trigger] values_view(out@)[j], self@.frames.len(), self@.strings.len()) by {
                lemma_value_ok_item(vs, self@.frames.len(), self@.strings.len(), vs.len() - 1 - j);
            }
            lemma_value_ok_list(values_view(out@), self@.frames.len(), self@.strings.len());
        }
        Ok(Value::List(out))
    }

    fn b_search(&self, args: &Vec<Arg>, pos: SourcePos, op: Search) -> (r: Result<Value, EvalError>)
        requires
            self.ok(),
            args_ok(args_view(args@), self@),
        ensures
            step_ok(self@, self@, r, b_search(self@, args_view(args@), pos, op)),
    {
        proof {
            lemma_grows_refl(self@);
            lemma_args_view(args@);
        }
        let name = match op {
            Search::Memq => "memq",
            Search::Memv => "memv",
            Search::Member => "member",
            Search::Assq => "assq",
            Search::Assv => "assv",
            Search::Assoc => "assoc",
        };
        let deep = match op {
            Search::Member => true,
            Search::Assoc => true,
            _ => false,
        };
        if args.len() != 2 {
            return Err(arity_err(pos, name, "expected exactly 2 arguments"));
        }
        let ghost av = args_view(args@);
        proof {
            assert(value_ok(av[0].value, self@.frames.len(), self@.strings.len()));
            assert(value_ok(av[1].value, self@.frames.len(), self@.strings.len()));
        }
        let key = &args[0].value;
        let members = match op {
            Search::Memq => true,
            Search::Memv => true,
            Search::Member => true,
            _ => false,
        };
        let items = if members {
            match &args[1].value {
                Value::List(items) => items,
                _ => {
                    return Ok(Value::Boolean(false));
                },
            }
        } else {
            expect_list_arg(&args[1], name)?
        };
        let ghost vs = values_view(items@);
        proof {
            lemma_values_view(items@);
        }
        let mut i: usize = 0;
        while i < items.len()
            invariant
                self.ok(),
                i <= items@.len(),
                vs == values_view(items@),
                vs.len() == items@.len(),
                forall|j: int| 0 <= j < items@.len() ==> #[trigger] vs[j] == items@[j]@,
                av == args_view(args@),
                av.len() == 2,
                members == (op == Search::Memq || op == Search::Memv || op == Search::Member),
                deep == search_deep(op),
                members ==> av[1].value == SValue::List(vs),
                !members ==> expect_list(av[1], search_name(op)) == Ok::<Seq<SValue>, ErrorView>(vs),
                av[0].value == key@,
                value_ok(av[0].value, self@.frames.len(), self@.strings.len()),
                value_ok(av[1].value, self@.frames.len(), self@.strings.len()),
                members ==> member_index(vs, 0, key@, deep, self@.strings) == member_index(vs, i as int, key@, deep, self@.strings),
                !members ==> assoc_index(vs, 0, key@, deep, self@.strings) == assoc_index(vs, i as int, key@, deep, self@.strings),
            decreases items@.len() - i,
        {
            proof {
                lemma_value_ok_item(vs, self@.frames.len(), self@.strings.len(), i as int);
            }
            if members {
                if self.same_values(key, &items[i], deep) {
                    let rest = copy_values_from(items, i);
                    proof {
                        let kk = i as int;
                        lemma_values_view(items@.skip(kk));
                        assert(values_view(items@.skip(kk)) =~= vs.skip(kk));
                        assert forall|j: int| 0 <= j < values_view(rest@).len() implies value_ok(
                            #[trigger] values_view(rest@)[j], self@.frames.len(), self@.strings.len()) by {
                            lemma_value_ok_item(vs, self@.frames.len(), self@.strings.len(), j + kk);
                        }
                        lemma_value_ok_list(values_view(rest@), self@.frames.len(), self@.strings.len());
                    }
                    return Ok(Value::List(rest));
                }
            } else {
                let hit = match &items[i] {
                    Value::List(entry) => {
                        proof {
                            lemma_values_view(entry@);
                        }
                        if entry.len() > 0 {
                            proof {
                                lemma_value_ok_item(values_view(entry@), self@.frames.len(), self@.strings.len(), 0);
                            }
                            self.same_values(key, &entry[0], deep)
                        } else {
                            false
                        }
                    },
                    _ => false,
                };
                if hit {
                    return Ok(items[i].copy());
                }
            }
            i = i + 1;
        }
        Ok(Value::Boolean(false))
    }

    fn b_division(&self, args: &Vec<Arg>, pos: SourcePos, op: Division) -> (r: Result<Value, EvalError>)
        ensures
            step_ok(self@, self@, r, b_division(self@, args_view(args@), pos, op)),
    {
        proof {
            lemma_grows_refl(self@);
            lemma_args_view(args@);
        }
        let name = match op {
            Division::Quotient => "quotient",
            Division::Remainder => "remainder",
            Division::Modulo => "modulo",
        };
        if args.len() != 2 {
            return Err(arity_err(pos, name, "expected exactly 2 arguments"));
        }
        let a = expect_integer_arg(&args[0], name)?;
        let d = expect_integer_arg(&args[1], name)?;
        if d == 0 {
            return Err(EvalError::at(args[1].pos, &str_chars("division by zero")));
        }
        let v = match op {
            Division::Quotient => match a.checked_div(d) {
                Some(q) => q,
                None => i64::MIN,
            },
            Division::Remainder => match a.checked_rem(d) {
                Some(q) => q,
                None => 0,
            },
            Division::Modulo => {
                let r = match a.checked_rem(d) {
                    Some(q) => q,
                    None => 0,
                };
                if r != 0 && ((r < 0) != (d < 0)) {
                    r + d
                } else {
                    r
                }
            },
        };
        Ok(Value::Integer(v))
    }

    fn b_extreme(&self, args: &Vec<Arg>, pos: SourcePos, op: IntOp, name: &str) -> (r: Result<Value, EvalError>)
        ensures
            step_ok(self@, self@, r, b_extreme(self@, args_view(args@), pos, op, name@)),
    {
        proof {
            lemma_grows_refl(self@);
            lemma_args_view(args@);
        }
        if args.len() == 0 {
            return Err(arity_err(pos, name, "expected at least 1 argument"));
        }
        let first = expect_integer_arg(&args[0], name)?;
        let t = fold_int_args(args, 1, first, op, name)?;
        Ok(Value::Integer(t))
    }

    fn b_int_test(&self, args: &Vec<Arg>, pos: SourcePos, op: IntTest) -> (r: Result<Value, EvalError>)
        ensures
            step_ok(self@, self@, r, b_int_test(self@, args_view(args@), pos, op)),
    {
        proof {
            lemma_grows_refl(self@);
            lemma_args_view(args@);
        }
        let name = match op {
            IntTest::Abs => "abs",
            IntTest::Zero => "zero?",
            IntTest::Positive => "positive?",
            IntTest::Negative => "negative?",
            IntTest::Odd => "odd?",
            IntTest::Even => "even?",
        };
        if args.len() != 1 {
            return Err(arity_err(pos, name, "expected exactly 1 argument"));
        }
        let n = expect_integer_arg(&args[0], name)?;
        let odd = match n.checked_rem(2) {
            Some(r) => r != 0,
            None => false,
        };
        let v = match op {
            IntTest::Abs => Value::Integer(if n < 0 { 0i64.wrapping_sub(n) } else { n }),
            IntTest::Zero => Value::Boolean(n == 0),
            IntTest::Positive => Value::Boolean(n > 0),
            IntTest::Negative => Value::Boolean(n < 0),
            IntTest::Odd => Value::Boolean(odd),
            IntTest::Even => Value::Boolean(!odd),
        };
        Ok(v)
    }

    fn b_string_compare(&self, args: &Vec<Arg>, pos: SourcePos, op: TextOrder) -> (r: Result<Value, EvalError>)
        requires
            self.ok(),
            args_ok(args_view(args@), self@),
        ensures
            step_ok(self@, self@, r, b_string_compare(self@, args_view(args@), pos, op)),
    {
        proof {
            lemma_grows_refl(self@);
            lemma_args_view(args@);
        }
        let name = match op {
            TextOrder::Eq => "string=?",
            TextOrder::Lt => "string<?",
            TextOrder::Gt => "string>?",
            TextOrder::Le => "string<=?",
            TextOrder::Ge => "string>=?",
        };
        if args.len() != 2 {
            return Err(arity_err(pos, name, "expected exactly 2 arguments"));
        }
        let a = expect_string_arg(&args[0], name)?;
        let b = expect_string_arg(&args[1], name)?;
        proof {
            let av = args_view(args@);
            assert(value_ok(av[0].value, self@.frames.len(), self@.strings.len()));
            assert(value_ok(av[1].value, self@.frames.len(), self@.strings.len()));
            self.lemma_frames_view();
        }
        let x = &self.strings[a];
        let y = &self.strings[b];
        let holds = match op {
            TextOrder::Eq => chars_eq(x, y),
            TextOrder::Lt => chars_less(x, y),
            TextOrder::Gt => chars_less(y, x),
            TextOrder::Le => !chars_less(y, x),
            TextOrder::Ge => !chars_less(x, y),
        };
        Ok(Value::Boolean(holds))
    }

    fn b_string_to_list(&self, args: &Vec<Arg>, pos: SourcePos) -> (r: Result<Value, EvalError>)
        requires
            self.ok(),
            args_ok(args_view(args@), self@),
        ensures
            step_ok(self@, self@, r, b_string_to_list(self@, args_view(args@), pos)),
    {
        proof {
            lemma_grows_refl(self@);
            lemma_args_view(args@);
        }
        if args.len() != 1 {
            return Err(arity_err(pos, "string->list", "expected exactly 1 argument"));
        }
        let h = expect_string_arg(&args[0], "string->list")?;
        proof {
            let av = args_view(args@);
            assert(value_ok(av[0].value, self@.frames.len(), self@.strings.len()));
            self.lemma_frames_view();
        }
        let s = &self.strings[h];
        let mut out: Vec<Value> = Vec::new();
        let mut i: usize = 0;
        while i < s.len()
            invariant
                i <= s@.len(),
                values_view(out@).len() == i,
                forall|j: int| 0 <= j < i ==> #[trigger] values_view(out@)[j] == char_value(s@[j]),
            decreases s@.len() - i,
        {
            let v = Value::character(s[i]);
            proof {
                lemma_values_view_push(out@, v);
            }
            out.push(v);
            i = i + 1;
        }
        proof {
            assert(i == s@.len());
            assert(values_view(out@).len() == s@.len());
            let t = self@.strings[h as int];
            assert(t == s@);
            assert(values_view(out@) =~= Seq::new(t.len(), |j: int| char_value(t[j])));
            assert forall|j: int| 0 <= j < values_view(out@).len() implies value_ok(
                #[trigger] values_view(out@)[j], self@.frames.len(), self@.strings.len()) by {}
            lemma_value_ok_list(values_view(out@), self@.frames.len(), self@.strings.len());
        }
        Ok(Value::List(out))
    }

    fn b_list_to_string(&mut self, args: &Vec<Arg>, pos: SourcePos) -> (r: Result<Value, EvalError>)
        requires
            old(self).ok(),
        ensures
            final(self).ok(),
            step_ok(old(self)@, final(self)@, r, b_list_to_string(old(self)@, args_view(args@), pos)),
    {
        proof {
            lemma_grows_refl(self@);
            lemma_args_view(args@);
        }
        if args.len() != 1 {
            return Err(arity_err(pos, "list->string", "expected exactly 1 argument"));
        }
        let items = expect_list_arg(&args[0], "list->string")?;
        let ghost vs = values_view(items@);
        proof {
            lemma_values_view(items@);
        }
        let mut text: Vec<char> = Vec::new();
        let mut i: usize = 0;
        while i < items.len()
            invariant
                i <= items@.len(),
                vs == values_view(items@),
                vs.len() == items@.len(),
                forall|j: int| 0 <= j < items@.len() ==> #[trigger] vs[j] == items@[j]@,
                chars_of(vs, 0, Seq::empty()) == chars_of(vs, i as int, text@),
                self.ok(),
                *self == *old(self),
                args@.len() == 1,
                expect_list(args_view(args@)[0], "list->string"@) == Ok::<Seq<SValue>, ErrorView>(vs),
            decreases items@.len() - i,
        {
            match &items[i] {
                Value::Character(c) => {
                    text.push(*c);
                },
                _ => {
                    return Err(type_mismatch(args[0].pos, "list->string", " expects a list of characters"));
                },
            }
            i = i + 1;
        }
        self.new_string_value(text)
    }

    fn b_string_from_chars(&mut self, args: &Vec<Arg>) -> (r: Result<Value, EvalError>)
        requires
            old(self).ok(),
        ensures
            final(self).ok(),
            step_ok(old(self)@, final(self)@, r, b_string_from_chars(old(self)@, args_view(args@))),
    {
        proof {
            lemma_grows_refl(self@);
            lemma_args_view(args@);
        }
        let ghost av = args_view(args@);
        let mut text: Vec<char> = Vec::new();
        let mut i: usize = 0;
        while i < args.len()
            invariant
                i <= args@.len(),
                av == args_view(args@),
                av.len() == args@.len(),
                forall|j: int| 0 <= j < args@.len() ==> #[trigger] av[j] == args@[j]@,
                char_args_from(av, 0, Seq::empty()) == char_args_from(av, i as int, text@),
                self.ok(),
                *self == *old(self),
            decreases args@.len() - i,
        {
            let c = expect_character_arg(&args[i], "string")?;
            text.push(c);
            i = i + 1;
        }
        self.new_string_value(text)
    }

    /// Applies a primitive procedure to evaluated arguments; `pos` is the
    /// position of the operator.
    pub fn call_builtin(&mut self, b: Builtin, args: &Vec<Arg>, pos: SourcePos) -> (r: Result<Value, EvalError>)
        requires
            old(self).ok(),
            args_ok(args_view(args@), old(self)@),
        ensures
            final(self).ok(),
            step_ok(old(self)@, final(self)@, r, builtin_call(old(self)@, b, args_view(args@), pos)),
    {
        match b {
            Builtin::Add => self.b_fold(args, 0, IntOp::Add, "+"),
            Builtin::Subtract => self.b_subtract(args, pos),
            Builtin::Multiply => self.b_fold(args, 1, IntOp::Mul, "*"),
            Builtin::Divide => self.b_divide(args, pos),
            Builtin::LessThan => self.b_compare(args, Comparison::Lt),
            Builtin::GreaterThan => self.b_compare(args, Comparison::Gt),
            Builtin::Equal => self.b_compare(args, Comparison::Eq),
            Builtin::LessEqual => self.b_compare(args, Comparison::Le),
            Builtin::GreaterEqual => self.b_compare(args, Comparison::Ge),
            Builtin::Not => self.b_not(args, pos),
            Builtin::Cons => self.b_cons(args, pos),
            Builtin::Car => self.b_car(args, pos),
            Builtin::Cdr => self.b_cdr(args, pos),
            Builtin::Caar | Builtin::Cadr | Builtin::Cdar | Builtin::Cddr | Builtin::Caddr => self.b_cxr(args, pos, b),
            Builtin::NullPredicate => self.b_null(args, pos),
            Builtin::List => self.b_list(args),
            Builtin::Length => self.b_length(args, pos),
            Builtin::Append => self.b_append(args),
            Builtin::StringPredicate => self.b_kind(args, pos, Kind::String),
            Builtin::NumberPredicate => self.b_kind(args, pos, Kind::Number),
            Builtin::BooleanPredicate => self.b_kind(args, pos, Kind::Boolean),
            Builtin::PairPredicate => self.b_kind(args, pos, Kind::Pair),
            Builtin::SymbolPredicate => self.b_kind(args, pos, Kind::Symbol),
            Builtin::Display => self.b_print(args, pos, true),
            Builtin::Write => self.b_print(args, pos, false),
            Builtin::Newline => self.b_newline(args, pos),
            Builtin::StringAppend => self.b_string_append(args),
            Builtin::StringLength => self.b_string_length(args, pos),
            Builtin::Substring => self.b_substring(args, pos),
            Builtin::StringToNumber => self.b_string_to_number(args, pos),
            Builtin::NumberToString => self.b_number_to_string(args, pos),
            Builtin::SymbolToString => self.b_symbol_to_string(args, pos),
            Builtin::StringToSymbol => self.b_string_to_symbol(args, pos),
            Builtin::StringRef => self.b_string_ref(args, pos),
            Builtin::CharPredicate => self.b_kind(args, pos, Kind::Char),
            Builtin::StringSet => self.b_string_set(args, pos),
            Builtin::StringCopy => self.b_string_copy(args, pos),
            Builtin::StringUpcase => self.b_string_case(args, pos, true),
            Builtin::StringDowncase => self.b_string_case(args, pos, false),
            Builtin::StringCiEqual => self.b_string_ci_equal(args, pos),
            Builtin::MakeString => self.b_make_string(args, pos),
            Builtin::Expt => self.b_expt(args, pos),
            Builtin::EqPredicate => self.b_same(args, pos, false, "eq?"),
            Builtin::EqvPredicate => self.b_same(args, pos, false, "eqv?"),
            Builtin::EqualPredicate => self.b_same(args, pos, true, "equal?"),
            Builtin::CharNumeric => self.b_char_op(args, pos, CharOp::Numeric),
            Builtin::CharUpcase => self.b_char_op(args, pos, CharOp::Upcase),
            Builtin::CharDowncase => self.b_char_op(args, pos, CharOp::Downcase),
            Builtin::CharEqual => self.b_char_compare(args, pos, false),
            Builtin::CharLess => self.b_char_compare(args, pos, true),
            Builtin::CharToInteger => self.b_char_op(args, pos, CharOp::ToInteger),
            Builtin::CharAlphabetic => self.b_char_op(args, pos, CharOp::Alphabetic),
            Builtin::IntegerToChar => self.b_integer_to_char(args, pos),
            Builtin::ListRef => self.b_list_ref(args, pos),
            Builtin::ListTail => self.b_list_tail(args, pos),
            Builtin::ListPredicate => self.b_list_shape(args, pos, false),
            Builtin::Reverse => self.b_list_shape(args, pos, true),
            Builtin::Memq => self.b_search(args, pos, Search::Memq),
            Builtin::Memv => self.b_search(args, pos, Search::Memv),
            Builtin::Member => self.b_search(args, pos, Search::Member),
            Builtin::Assq => self.b_search(args, pos, Search::Assq),
            Builtin::Assv => self.b_search(args, pos, Search::Assv),
            Builtin::Assoc => self.b_search(args, pos, Search::Assoc),
            Builtin::Abs => self.b_int_test(args, pos, IntTest::Abs),
            Builtin::Gcd => self.b_gcd(args, pos),
            Builtin::Lcm => self.b_lcm(args, pos),
            Builtin::Quotient => self.b_division(args, pos, Division::Quotient),
            Builtin::Remainder => self.b_division(args, pos, Division::Remainder),
            Builtin::Modulo => self.b_division(args, pos, Division::Modulo),
            Builtin::Min => self.b_extreme(args, pos, IntOp::Min, "min"),
            Builtin::Max => self.b_extreme(args, pos, IntOp::Max, "max"),
            Builtin::ZeroPredicate => self.b_int_test(args, pos, IntTest::Zero),
            Builtin::PositivePredicate => self.b_int_test(args, pos, IntTest::Positive),
            Builtin::NegativePredicate => self.b_int_test(args, pos, IntTest::Negative),
            Builtin::OddPredicate => self.b_int_test(args, pos, IntTest::Odd),
            Builtin::EvenPredicate => self.b_int_test(args, pos, IntTest::Even),
            Builtin::StringEqual => self.b_string_compare(args, pos, TextOrder::Eq),
            Builtin::StringLess => self.b_string_compare(args, pos, TextOrder::Lt),
            Builtin::StringGreater => self.b_string_compare(args, pos, TextOrder::Gt),
            Builtin::StringLessEqual => self.b_string_compare(args, pos, TextOrder::Le),
            Builtin::StringGreaterEqual => self.b_string_compare(args, pos, TextOrder::Ge),
            Builtin::StringToList => self.b_string_to_list(args, pos),
            Builtin::ListToString => self.b_list_to_string(args, pos),
            Builtin::StringFromChars => self.b_string_from_chars(args),
            Builtin::IntegerPredicate => self.b_kind(args, pos, Kind::Integer),
            Builtin::ProcedurePredicate => self.b_kind(args, pos, Kind::Procedure),
            Builtin::Apply => Err(arity_err(pos, "apply", "needs the evaluator to call procedures")),
            Builtin::MapEach => Err(arity_err(pos, "map", "needs the evaluator to call procedures")),
            Builtin::ForEach => Err(arity_err(pos, "for-each", "needs the evaluator to call procedures")),
            Builtin::Error => self.b_error(args),
        }
    }
}

/// The characters of a list of character values, read from index `i` on,
/// continue the text they were read from.
proof fn lemma_chars_of_text(s: Seq<char>, i: int)
    requires
        0 <= i <= s.len(),
    ensures
        chars_of(Seq::new(s.len(), |j: int| char_value(s[j])), i, s.take(i)) == Some(s),
    decreases s.len() - i,
{
    let items = Seq::new(s.len(), |j: int| char_value(s[j]));
    if i == s.len() {
        assert(s.take(i) =~= s);
    } else {
        assert(s.take(i).push(s[i]) =~= s.take(i + 1));
        lemma_chars_of_text(s, i + 1);
    }
}

/// `list->string` of what `string->list` gives for a string is a new string
/// with the same text.
pub proof fn law_string_list_round_trip(st: SState, h: usize, at: SourcePos, pos: SourcePos)
    requires
        h < st.strings.len(),
    ensures
        builtin_call(st, Builtin::StringToList, seq![SArg { value: SValue::Str(h), pos: at }], pos)
            == (st, Ok::<SValue, ErrorView>(SValue::List(Seq::new(st.strings[h as int].len(), |j: int| char_value(st.strings[h as int][j]))))),
        ({
            let l = SValue::List(Seq::new(st.strings[h as int].len(), |j: int| char_value(st.strings[h as int][j])));
            let (st2, r) = builtin_call(st, Builtin::ListToString, seq![SArg { value: l, pos: at }], pos);
            &&& r == Ok::<SValue, ErrorView>(SValue::Str(st.strings.len() as usize))
            &&& st2.strings == st.strings.push(st.strings[h as int])
            &&& st2.frames == st.frames
            &&& st2.output == st.output
        }),
{
    let s = st.strings[h as int];
    lemma_chars_of_text(s, 0);
    assert(s.take(0) =~= Seq::<char>::empty());
}

/// `reverse` applied twice gives back the list.
pub proof fn law_reverse_twice(st: SState, items: Seq<SValue>, at: SourcePos, pos: SourcePos)
    ensures
        ({
            let (st1, r1) = builtin_call(st, Builtin::Reverse, seq![SArg { value: SValue::List(items), pos: at }], pos);
            &&& st1 == st
            &&& r1 matches Ok(SValue::List(rev))
            &&& rev.len() == items.len()
            &&& builtin_call(st, Builtin::Reverse, seq![SArg { value: SValue::List(rev), pos: at }], pos)
                == (st, Ok::<SValue, ErrorView>(SValue::List(items)))
        }),
{
    let rev = Seq::new(items.len(), |i: int| items[items.len() - 1 - i]);
    let back = Seq::new(rev.len(), |i: int| rev[rev.len() - 1 - i]);
    assert(back =~= items);
}

/// `append` of two lists is their concatenation.
pub proof fn law_append_two_lists(st: SState, a: Seq<SValue>, b: Seq<SValue>, at: SourcePos, bt: SourcePos, pos: SourcePos)
    ensures
        builtin_call(
            st,
            Builtin::Append,
            seq![SArg { value: SValue::List(a), pos: at }, SArg { value: SValue::List(b), pos: bt }],
            pos,
        ) == (st, Ok::<SValue, ErrorView>(SValue::List(a + b))),
{
    let args = seq![SArg { value: SValue::List(a), pos: at }, SArg { value: SValue::List(b), pos: bt }];
    assert(Seq::<SValue>::empty() + a =~= a);
    assert(append_from(args, 2, a + b) == Ok::<Seq<SValue>, ErrorView>(a + b));
    assert(append_from(args, 1, a) == Ok::<Seq<SValue>, ErrorView>(a + b));
}

} // verus!
