//! Texts that the reader reads back to what the printer wrote: a string
//! literal, a character literal and the name of a primitive procedure each
//! evaluate, as a whole program, to their own written form.
use vstd::prelude::*;

use super::env::{lemma_define_all_keeps, lookup, SFrame, SState};
use super::error::ErrorView;
use super::expr::SExpr;
use super::interpreter::{initial_state, law_primitives_bound};
use super::parser::{
    advance, at_end, is_delimiter, peek, read_expr, read_program, skip, start_cursor, string_body,
    token, Cursor,
};
use super::position::SourcePos;
use super::run;
use super::semantics::{eval_expr, seq_from};
use super::text::is_space;
use super::value::{
    all_builtins, builtin_name, escape_body, escape_char, escape_string, lemma_builtin_name_is_symbol,
    render, render_character, Builtin, SValue,
};

verus! {

/// `input` writes the text `t`, one byte for each character.
pub open spec fn spells(input: Seq<u8>, t: Seq<char>) -> bool {
    &&& input.len() == t.len()
    &&& forall|i: int| 0 <= i < t.len() ==> #[trigger] input[i] as char == t[i]
}

/// The run of non-delimiters from `c` to the end of the input is read as one token.
proof fn lemma_token_to_end(input: Seq<u8>, c: Cursor, acc: Seq<char>, t: Seq<char>)
    requires
        input.len() <= usize::MAX,
        c.index + t.len() == input.len(),
        forall|j: int| 0 <= j < t.len() ==> #[trigger] input[c.index + j] as char == t[j],
        forall|j: int| 0 <= j < t.len() ==> !is_delimiter(#[trigger] t[j]),
    ensures
        token(input, c, acc).0 == acc + t,
        token(input, c, acc).1.index == input.len(),
    decreases t.len(),
{
    if t.len() == 0 {
        assert(acc + t =~= acc);
    } else {
        assert(input[c.index + 0] as char == t[0]);
        let c2 = advance(input, c);
        let rest = t.skip(1);
        assert forall|j: int| 0 <= j < rest.len() implies #[trigger] input[c2.index + j] as char == rest[j] by {
            assert(input[c.index + (j + 1)] as char == t[j + 1]);
        }
        assert forall|j: int| 0 <= j < rest.len() implies !is_delimiter(#[trigger] rest[j]) by {
            assert(!is_delimiter(t[j + 1]));
        }
        lemma_token_to_end(input, c2, acc.push(t[0]), rest);
        assert(acc.push(t[0]) + rest =~= acc + t);
    }
}

/// A fresh interpreter has one frame, no strings and no output.
proof fn lemma_initial_state(l: usize)
    ensures
        initial_state(l).strings == Seq::<Seq<char>>::empty(),
        initial_state(l).output == Seq::<char>::empty(),
        initial_state(l).frames.len() == 1,
        initial_state(l).limit == l,
{
    lemma_define_all_keeps(
        SState {
            frames: seq![SFrame { parent: None, names: Seq::empty(), values: Seq::empty() }],
            strings: Seq::empty(),
            output: Seq::empty(),
            limit: l,
        },
        0,
        all_builtins().map_values(|b: Builtin| builtin_name(b)),
        all_builtins().map_values(|b: Builtin| SValue::Builtin(b)),
    );
}

/// A program that is one expression, read from its first byte to its last,
/// runs as that expression evaluated in the global frame.
proof fn lemma_run_single(input: Seq<u8>, e: SExpr, l: usize)
    requires
        input.len() <= usize::MAX,
        input.len() > 0,
        !is_space(input[0] as char),
        input[0] as char != ';',
        read_expr(input, start_cursor()) matches Ok((e2, c2)) && e2 == e && c2.index == input.len(),
    ensures
        read_program(input) == Ok::<Seq<SExpr>, ErrorView>(seq![e]),
        run(input, l) == match eval_expr(initial_state(l), e, 0, l as nat) {
            (st, Ok(v)) => Ok((render(v, st.strings, false), st.output)),
            (_, Err(err)) => Err(err),
        },
{
    let c0 = start_cursor();
    assert(skip(input, c0, false) == c0);
    let c2 = read_expr(input, c0)->Ok_0.1;
    assert(skip(input, c2, false) == c2);
    reveal_with_fuel(super::parser::program_items, 2);
    assert(read_program(input) == Ok::<Seq<SExpr>, ErrorView>(Seq::<SExpr>::empty().push(e)));
    assert(Seq::<SExpr>::empty().push(e) =~= seq![e]);
    reveal_with_fuel(seq_from, 2);
}

/// Evaluating the name of a primitive procedure, as a whole program, writes
/// `#<procedure:name>` and nothing else.
pub proof fn law_primitive_name_evaluates_to_itself(input: Seq<u8>, b: Builtin, l: usize)
    requires
        spells(input, builtin_name(b)),
        l >= 1,
    ensures
        run(input, l) == Ok::<(Seq<char>, Seq<char>), ErrorView>(
            ("#<procedure:"@ + builtin_name(b) + seq!['>'], Seq::empty()),
        ),
{
    let name = builtin_name(b);
    lemma_builtin_name_is_symbol(b);
    let c0 = start_cursor();
    assert(input[0] as char == name[0]);
    assert forall|j: int| 0 <= j < name.len() implies !is_delimiter(#[trigger] name[j]) by {}
    assert forall|j: int| 0 <= j < name.len() implies #[trigger] input[c0.index + j] as char == name[j] by {}
    lemma_token_to_end(input, c0, Seq::empty(), name);
    assert(Seq::<char>::empty() + name =~= name);
    assert(skip(input, c0, false) == c0);
    let e = SExpr::Symbol(name, SourcePos { line: 1, column: 1 });
    assert(!super::parser::is_integer_token(name));
    assert(read_expr(input, c0) == Ok::<(SExpr, Cursor), ErrorView>((e, token(input, c0, Seq::empty()).1)));
    lemma_run_single(input, e, l);
    lemma_initial_state(l);
    law_primitives_bound(l, b);
}

/// A character that has a written form the reader takes back: space, line
/// feed, tab, or a visible ASCII character other than a parenthesis or `;`.
pub open spec fn readable_character(c: char) -> bool {
    ||| c == ' '
    ||| c == '\n'
    ||| c == '\t'
    ||| (' ' < c && c < '\x7f' && c != '(' && c != ')' && c != ';')
}

/// The written form of such a character, as a whole program, evaluates to
/// that character and so writes the same text again.
pub proof fn law_character_literal_evaluates_to_itself(input: Seq<u8>, c: char, l: usize)
    requires
        readable_character(c),
        spells(input, render_character(c)),
        l >= 1,
    ensures
        run(input, l) == Ok::<(Seq<char>, Seq<char>), ErrorView>((render_character(c), Seq::empty())),
{
    reveal_strlit("#\\space");
    reveal_strlit("#\\newline");
    reveal_strlit("#\\tab");
    reveal_strlit("space");
    reveal_strlit("newline");
    reveal_strlit("tab");
    let t = render_character(c);
    let tail = t.skip(2);
    let c0 = start_cursor();
    assert(input[0] as char == '#');
    assert(input[1] as char == '\\');
    assert(input[0] == 35u8);
    assert(input[1] == 92u8);
    assert(skip(input, c0, false) == c0);
    let c2 = advance(input, advance(input, c0));
    assert(c2.index == 2);
    assert forall|j: int| 0 <= j < tail.len() implies #[trigger] input[c2.index + j] as char == tail[j] by {
        assert(input[2 + j] as char == t[2 + j]);
    }
    assert forall|j: int| 0 <= j < tail.len() implies !is_delimiter(#[trigger] tail[j]) by {}
    lemma_token_to_end(input, c2, Seq::empty(), tail);
    assert(Seq::<char>::empty() + tail =~= tail);
    if c == ' ' {
        assert(tail =~= "space"@);
    } else if c == '\n' {
        assert(tail =~= "newline"@);
    } else if c == '\t' {
        assert(tail =~= "tab"@);
    } else {
        assert(tail =~= seq![c]);
    }
    let e = SExpr::Character(c, SourcePos { line: 1, column: 1 });
    assert(read_expr(input, c0) == Ok::<(SExpr, Cursor), ErrorView>((e, token(input, c2, Seq::empty()).1)));
    lemma_run_single(input, e, l);
    lemma_initial_state(l);
}

proof fn lemma_escape_body_front(s: Seq<char>)
    requires
        s.len() > 0,
    ensures
        escape_body(s) == escape_char(s[0]) + escape_body(s.skip(1)),
    decreases s.len(),
{
    if s.len() == 1 {
        assert(s.drop_last() =~= Seq::<char>::empty());
        assert(s.skip(1) =~= Seq::<char>::empty());
        assert(escape_body(s) =~= escape_char(s[0]) + escape_body(s.skip(1)));
    } else {
        lemma_escape_body_front(s.drop_last());
        assert(s.skip(1).drop_last() =~= s.drop_last().skip(1));
        assert(s.skip(1).last() == s.last());
        assert(escape_body(s) =~= escape_char(s[0]) + escape_body(s.skip(1)));
    }
}

/// The escaped text of `s` followed by a closing quote reads, after `acc`, as `s`.
proof fn lemma_string_body_escaped(input: Seq<u8>, c: Cursor, acc: Seq<char>, s: Seq<char>, pos: SourcePos)
    requires
        input.len() <= usize::MAX,
        c.index + escape_body(s).len() + 1 == input.len(),
        forall|j: int| 0 <= j < escape_body(s).len() ==> #[trigger] input[c.index + j] as char == escape_body(s)[j],
        input[input.len() - 1] as char == '"',
    ensures
        string_body(input, c, acc, pos) matches Ok((e, c2)) && e == SExpr::String(acc + s, pos) && c2.index
            == input.len(),
    decreases s.len(),
{
    if s.len() == 0 {
        assert(acc + s =~= acc);
    } else {
        lemma_escape_body_front(s);
        let ch = s[0];
        let first = escape_char(ch);
        let rest = s.skip(1);
        let eb = escape_body(s);
        assert(eb == first + escape_body(rest));
        assert(input[c.index + 0] as char == eb[0]);
        let c2 = advance(input, c);
        let next = if first.len() == 2 {
            assert(input[c.index + 1] as char == eb[1]);
            advance(input, c2)
        } else {
            c2
        };
        assert(next.index == c.index + first.len());
        assert forall|j: int| 0 <= j < escape_body(rest).len() implies #[trigger] input[next.index + j] as char
            == escape_body(rest)[j] by {
            assert(input[c.index + (first.len() + j)] as char == eb[first.len() + j]);
        }
        lemma_string_body_escaped(input, next, acc.push(ch), rest, pos);
        assert(acc.push(ch) + rest =~= acc + s);
    }
}

/// A string written as a literal, as a whole program, evaluates to a string
/// with the same text, and so writes the same literal again.
pub proof fn law_string_literal_evaluates_to_itself(input: Seq<u8>, s: Seq<char>, l: usize)
    requires
        spells(input, escape_string(s)),
        input.len() <= usize::MAX,
        l >= 1,
    ensures
        run(input, l) == Ok::<(Seq<char>, Seq<char>), ErrorView>((escape_string(s), Seq::empty())),
{
    let t = escape_string(s);
    let eb = escape_body(s);
    let c0 = start_cursor();
    assert(t == seq!['"'] + eb + seq!['"']);
    assert(input[0] as char == t[0]);
    assert(input[input.len() - 1] as char == t[t.len() - 1]);
    assert(skip(input, c0, false) == c0);
    let c1 = advance(input, c0);
    assert(c1.index == 1);
    assert forall|j: int| 0 <= j < eb.len() implies #[trigger] input[c1.index + j] as char == eb[j] by {
        assert(input[1 + j] as char == t[1 + j]);
    }
    let pos = SourcePos { line: 1, column: 1 };
    lemma_string_body_escaped(input, c1, Seq::empty(), s, pos);
    assert(Seq::<char>::empty() + s =~= s);
    let e = SExpr::String(s, pos);
    assert(read_expr(input, c0) == Ok::<(SExpr, Cursor), ErrorView>((e, string_body(input, c1, Seq::empty(), pos)->Ok_0.1)));
    lemma_run_single(input, e, l);
    lemma_initial_state(l);
}

} // verus!
