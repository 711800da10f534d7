//! The three equivalences of Scheme: `eq?` and `eqv?` compare atoms by value
//! and strings by identity; `equal?` also compares strings by their text and
//! lists element by element.
use vstd::prelude::*;

use super::text::chars_eq;
use super::value::{lemma_values_view, value_ok, values_view, SValue, Value};

verus! {

/// `eqv?`: the same integer, boolean, character, symbol or primitive; the same
/// string object; two empty lists; or two void values.
pub open spec fn eqv(a: SValue, b: SValue) -> bool {
    match (a, b) {
        (SValue::Integer(x), SValue::Integer(y)) => x == y,
        (SValue::Boolean(x), SValue::Boolean(y)) => x == y,
        (SValue::Character(x), SValue::Character(y)) => x == y,
        (SValue::Symbol(x), SValue::Symbol(y)) => x == y,
        (SValue::Str(x), SValue::Str(y)) => x == y,
        (SValue::List(x), SValue::List(y)) => x.len() == 0 && y.len() == 0,
        (SValue::Builtin(x), SValue::Builtin(y)) => x == y,
        (SValue::Void, SValue::Void) => true,
        _ => false,
    }
}

/// `equal?`: strings with the same text, lists of the same length whose
/// elements are `equal?` in turn, and otherwise `eqv?`.
pub open spec fn equal(a: SValue, b: SValue, strings: Seq<Seq<char>>) -> bool
    decreases a,
{
    match (a, b) {
        (SValue::Str(x), SValue::Str(y)) => strings[x as int] == strings[y as int],
        (SValue::List(x), SValue::List(y)) => x.len() == y.len() && forall|i: int|
            0 <= i < x.len() ==> equal(#[trigger] x[i], y[i], strings),
        _ => eqv(a, b),
    }
}

/// Every string that `v` mentions is one of the first `n`.
pub open spec fn strings_within(v: SValue, n: nat) -> bool
    decreases v,
{
    match v {
        SValue::Str(h) => h < n,
        SValue::List(items) => forall|i: int| 0 <= i < items.len() ==> strings_within(#[trigger] items[i], n),
        _ => true,
    }
}

proof fn lemma_strings_within_item(vs: Seq<SValue>, n: nat, i: int)
    requires
        strings_within(SValue::List(vs), n),
        0 <= i < vs.len(),
    ensures
        strings_within(vs[i], n),
{
    reveal_with_fuel(strings_within, 2);
    let v = SValue::List(vs);
    assert(v->List_0 == vs);
}

/// A well-formed value mentions only existing strings.
pub proof fn lemma_value_ok_strings_within(v: SValue, n_frames: nat, n_strings: nat)
    requires
        value_ok(v, n_frames, n_strings),
    ensures
        strings_within(v, n_strings),
    decreases v,
{
    match v {
        SValue::List(items) => {
            assert forall|i: int| 0 <= i < items.len() implies strings_within(#[trigger] items[i], n_strings) by {
                super::value::lemma_value_ok_item(items, n_frames, n_strings, i);
                lemma_value_ok_strings_within(items[i], n_frames, n_strings);
            }
        },
        _ => {},
    }
}

/// `eq?`, which is `eqv?` here.
pub fn is_eq(left: &Value, right: &Value) -> (r: bool)
    ensures
        r == eqv(left@, right@),
{
    is_eqv(left, right)
}

/// `eqv?`.
pub fn is_eqv(left: &Value, right: &Value) -> (r: bool)
    ensures
        r == eqv(left@, right@),
{
    match (left, right) {
        (Value::Integer(x), Value::Integer(y)) => *x == *y,
        (Value::Boolean(x), Value::Boolean(y)) => *x == *y,
        (Value::Character(x), Value::Character(y)) => *x == *y,
        (Value::Symbol(x), Value::Symbol(y)) => chars_eq(x, y),
        (Value::String(x), Value::String(y)) => *x == *y,
        (Value::List(x), Value::List(y)) => {
            proof {
                lemma_values_view(x@);
                lemma_values_view(y@);
            }
            x.len() == 0 && y.len() == 0
        },
        (Value::Builtin(x), Value::Builtin(y)) => *x == *y,
        (Value::Void, Value::Void) => true,
        _ => false,
    }
}

/// `equal?`, reading the text of each string from `strings`.
pub fn is_equal(strings: &Vec<Vec<char>>, left: &Value, right: &Value) -> (r: bool)
    requires
        strings_within(left@, strings@.len()),
        strings_within(right@, strings@.len()),
    ensures
        r == equal(left@, right@, strings@.map_values(|s: Vec<char>| s@)),
    decreases left,
{
    let ghost sv = strings@.map_values(|s: Vec<char>| s@);
    match (left, right) {
        (Value::String(x), Value::String(y)) => {
            proof {
                assert(sv[*x as int] == strings@[*x as int]@);
                assert(sv[*y as int] == strings@[*y as int]@);
            }
            chars_eq(&strings[*x], &strings[*y])
        },
        (Value::List(x), Value::List(y)) => {
            proof {
                lemma_values_view(x@);
                lemma_values_view(y@);
            }
            if x.len() != y.len() {
                return false;
            }
            let mut i: usize = 0;
            while i < x.len()
                invariant
                    i <= x@.len(),
                    x@.len() == y@.len(),
                    *left == Value::List(*x),
                    *right == Value::List(*y),
                    sv == strings@.map_values(|s: Vec<char>| s@),
                    strings_within(left@, strings@.len()),
                    strings_within(right@, strings@.len()),
                    forall|j: int| 0 <= j < i ==> equal(#[trigger] values_view(x@)[j], values_view(y@)[j], sv),
                    values_view(x@).len() == x@.len(),
                    values_view(y@).len() == y@.len(),
                    forall|j: int| 0 <= j < x@.len() ==> #[trigger] values_view(x@)[j] == x@[j]@,
                    forall|j: int| 0 <= j < y@.len() ==> #[trigger] values_view(y@)[j] == y@[j]@,
                decreases x@.len() - i,
            {
                proof {
                    assert(decreases_to!(*left => (*left)->List_0));
                    assert(decreases_to!(*x => x[i as int]));
                    lemma_strings_within_item(values_view(x@), strings@.len(), i as int);
                    lemma_strings_within_item(values_view(y@), strings@.len(), i as int);
                }
                if !is_equal(strings, &x[i], &y[i]) {
                    return false;
                }
                i = i + 1;
            }
            true
        },
        _ => is_eqv(left, right),
    }
}

} // verus!
