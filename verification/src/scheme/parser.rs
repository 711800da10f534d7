//! The reader: Scheme source bytes to expressions.
//!
//! The reader walks the input byte by byte and reads each byte as the
//! character with the same code, tracking the line and column of each
//! position.
use vstd::prelude::*;

use super::error::{syntax_error, ErrorView, EvalError};
use super::expr::{expr_view, exprs_view, lemma_exprs_view_push, Expr, SExpr};
use super::position::SourcePos;
use super::text::{
    all_digits, chars_eq, is_digit, is_digit_char, is_space, is_space_char, parse_i64,
    parse_i64_chars, str_chars,
};

verus! {

/// A place in the input: the index of the next byte, and its line and column.
#[derive(Clone, Copy, Debug, PartialEq, Eq, Structural)]
pub struct Cursor {
    pub index: usize,
    pub line: usize,
    pub column: usize,
}

/// The result of reading one expression: the expression and the place after it.
pub type ReadResult = Result<(SExpr, Cursor), ErrorView>;

pub open spec fn start_cursor() -> Cursor {
    Cursor { index: 0, line: 1, column: 1 }
}

/// A cursor that lies within the input.
pub open spec fn cursor_ok(input: Seq<u8>, c: Cursor) -> bool {
    c.index <= input.len()
}

pub open spec fn at_end(input: Seq<u8>, c: Cursor) -> bool {
    c.index >= input.len()
}

/// The character at the cursor: the byte read as the character with that code.
pub open spec fn peek(input: Seq<u8>, c: Cursor) -> char {
    input[c.index as int] as char
}

/// The cursor after the character at `c`: a line feed starts a new line.
pub open spec fn advance(input: Seq<u8>, c: Cursor) -> Cursor {
    if peek(input, c) == '\n' {
        Cursor { index: (c.index + 1) as usize, line: c.line.saturating_add(1), column: 1 }
    } else {
        Cursor { index: (c.index + 1) as usize, line: c.line, column: c.column.saturating_add(1) }
    }
}

pub open spec fn here(c: Cursor) -> SourcePos {
    SourcePos { line: c.line, column: c.column }
}

pub open spec fn is_delimiter(ch: char) -> bool {
    is_space(ch) || ch == '(' || ch == ')' || ch == ';'
}

/// Skips whitespace and comments; a comment runs from `;` to the end of the line.
pub open spec fn skip(input: Seq<u8>, c: Cursor, in_comment: bool) -> Cursor
    decreases input.len() - c.index, (if in_comment { 1int } else { 0int })
        when input.len() <= usize::MAX
{
    if at_end(input, c) {
        c
    } else if in_comment {
        if peek(input, c) == '\n' {
            skip(input, c, false)
        } else {
            skip(input, advance(input, c), true)
        }
    } else if is_space(peek(input, c)) {
        skip(input, advance(input, c), false)
    } else if peek(input, c) == ';' {
        skip(input, advance(input, c), true)
    } else {
        c
    }
}

pub open spec fn skip_ignored(input: Seq<u8>, c: Cursor) -> Cursor {
    skip(input, c, false)
}

/// The characters up to the next delimiter or the end of the input, and the
/// cursor after them.
pub open spec fn token(input: Seq<u8>, c: Cursor, acc: Seq<char>) -> (Seq<char>, Cursor)
    decreases input.len() - c.index
        when input.len() <= usize::MAX
{
    if !at_end(input, c) && !is_delimiter(peek(input, c)) {
        token(input, advance(input, c), acc.push(peek(input, c)))
    } else {
        (acc, c)
    }
}

/// A token that reads as an integer: digits, optionally after one sign.
pub open spec fn is_integer_token(t: Seq<char>) -> bool {
    if t.len() == 0 {
        false
    } else if t[0] == '+' || t[0] == '-' {
        t.len() > 1 && all_digits(t.skip(1))
    } else {
        all_digits(t)
    }
}

pub open spec fn read_atom(input: Seq<u8>, c: Cursor) -> ReadResult {
    let pos = here(c);
    let (t, c2) = token(input, c, Seq::empty());
    if t.len() == 0 {
        Err(syntax_error(pos, "unexpected token"@))
    } else if is_integer_token(t) {
        match parse_i64(t) {
            Some(v) => Ok((SExpr::Integer(v, pos), c2)),
            None => Err(syntax_error(pos, "invalid integer literal: "@ + t)),
        }
    } else {
        Ok((SExpr::Symbol(t, pos), c2))
    }
}

/// The characters of a string literal after its opening quote.
pub open spec fn string_body(input: Seq<u8>, c: Cursor, acc: Seq<char>, pos: SourcePos) -> ReadResult
    decreases input.len() - c.index
        when input.len() <= usize::MAX
{
    if at_end(input, c) {
        Err(syntax_error(pos, "unterminated string"@))
    } else {
        let ch = peek(input, c);
        let c2 = advance(input, c);
        if ch == '"' {
            Ok((SExpr::String(acc, pos), c2))
        } else if ch == '\\' {
            if at_end(input, c2) {
                Err(syntax_error(pos, "unterminated string"@))
            } else {
                let esc = peek(input, c2);
                let c3 = advance(input, c2);
                if esc == '"' || esc == '\\' {
                    string_body(input, c3, acc.push(esc), pos)
                } else if esc == 'n' {
                    string_body(input, c3, acc.push('\n'), pos)
                } else if esc == 'r' {
                    string_body(input, c3, acc.push('\r'), pos)
                } else if esc == 't' {
                    string_body(input, c3, acc.push('\t'), pos)
                } else {
                    Err(syntax_error(here(c3), "unsupported escape sequence \\"@.push(esc)))
                }
            }
        } else {
            string_body(input, c2, acc.push(ch), pos)
        }
    }
}

pub open spec fn read_string(input: Seq<u8>, c: Cursor) -> ReadResult {
    string_body(input, advance(input, c), Seq::empty(), here(c))
}

/// Whether the input at `c` starts with the two bytes `b0 b1` followed by a
/// delimiter or the end of the input.
pub open spec fn matches_pair(input: Seq<u8>, c: Cursor, b0: u8, b1: u8) -> bool {
    &&& c.index + 2 <= input.len()
    &&& input[c.index as int] == b0
    &&& input[c.index + 1] == b1
    &&& !(c.index + 2 < input.len() && !is_delimiter(input[c.index + 2] as char))
}

pub open spec fn starts_with_pair(input: Seq<u8>, c: Cursor, b0: u8, b1: u8) -> bool {
    &&& c.index + 2 <= input.len()
    &&& input[c.index as int] == b0
    &&& input[c.index + 1] == b1
}

pub open spec fn read_character(input: Seq<u8>, c: Cursor) -> ReadResult {
    let pos = here(c);
    let (t, c2) = token(input, advance(input, advance(input, c)), Seq::empty());
    if t.len() == 0 {
        Err(syntax_error(pos, "invalid character literal"@))
    } else if t == "space"@ {
        Ok((SExpr::Character(' ', pos), c2))
    } else if t == "newline"@ {
        Ok((SExpr::Character('\n', pos), c2))
    } else if t == "tab"@ {
        Ok((SExpr::Character('\t', pos), c2))
    } else if t.len() == 1 {
        Ok((SExpr::Character(t[0], pos), c2))
    } else {
        Err(syntax_error(pos, "invalid character literal"@))
    }
}

/// `#t`, `#f` or a character literal `#\x`.
pub open spec fn read_hash(input: Seq<u8>, c: Cursor) -> ReadResult {
    let pos = here(c);
    if matches_pair(input, c, 35u8, 116u8) {
        Ok((SExpr::Boolean(true, pos), advance(input, advance(input, c))))
    } else if matches_pair(input, c, 35u8, 102u8) {
        Ok((SExpr::Boolean(false, pos), advance(input, advance(input, c))))
    } else if starts_with_pair(input, c, 35u8, 92u8) {
        read_character(input, c)
    } else {
        Err(syntax_error(pos, "invalid hash literal"@))
    }
}

/// Reads one expression after skipping whitespace and comments.
pub open spec fn read_expr(input: Seq<u8>, c: Cursor) -> ReadResult
    decreases input.len() - c.index, 2int
        when input.len() <= usize::MAX
{
    let c1 = skip_ignored(input, c);
    proof {
        lemma_skip_progress(input, c, false);
    }
    let pos = here(c1);
    if at_end(input, c1) {
        Err(syntax_error(pos, "unexpected end of input"@))
    } else {
        let ch = peek(input, c1);
        if ch == '(' {
            read_list(input, c1)
        } else if ch == '"' {
            read_string(input, c1)
        } else if ch == '#' {
            read_hash(input, c1)
        } else if ch == '\'' {
            read_quote(input, c1)
        } else {
            read_atom(input, c1)
        }
    }
}

/// `'x` reads as `(quote x)`.
pub open spec fn read_quote(input: Seq<u8>, c: Cursor) -> ReadResult
    decreases input.len() - c.index, 1int
        when input.len() <= usize::MAX
{
    let pos = here(c);
    if at_end(input, c) {
        Err(syntax_error(pos, "unexpected end of input"@))
    } else {
        match read_expr(input, advance(input, c)) {
            Ok((quoted, c2)) => Ok(
                (SExpr::List(seq![SExpr::Symbol("quote"@, pos), quoted], pos), c2),
            ),
            Err(e) => Err(e),
        }
    }
}

pub open spec fn read_list(input: Seq<u8>, c: Cursor) -> ReadResult
    decreases input.len() - c.index, 1int
        when input.len() <= usize::MAX
{
    if at_end(input, c) {
        Err(syntax_error(here(c), "unterminated list"@))
    } else {
        let c2 = skip_ignored(input, advance(input, c));
        proof {
            lemma_skip_progress(input, advance(input, c), false);
        }
        list_items(input, c2, Seq::empty(), here(c))
    }
}

/// The elements of a list after its opening parenthesis.
pub open spec fn list_items(input: Seq<u8>, c: Cursor, acc: Seq<SExpr>, pos: SourcePos) -> ReadResult
    decreases input.len() - c.index, 3int
        when input.len() <= usize::MAX
{
    if !at_end(input, c) && peek(input, c) != ')' {
        match read_expr(input, c) {
            Ok((e, c2)) => {
                let c3 = skip_ignored(input, c2);
                if c.index < c3.index && c3.index <= input.len() {
                    list_items(input, c3, acc.push(e), pos)
                } else {
                    Err(syntax_error(pos, "unterminated list"@))
                }
            },
            Err(err) => Err(err),
        }
    } else if at_end(input, c) {
        Err(syntax_error(pos, "unterminated list"@))
    } else {
        Ok((SExpr::List(acc, pos), advance(input, c)))
    }
}

/// The expressions of a program, from `c` on.
pub open spec fn program_items(input: Seq<u8>, c: Cursor, acc: Seq<SExpr>) -> Result<Seq<SExpr>, ErrorView>
    decreases input.len() - c.index
        when input.len() <= usize::MAX
{
    if at_end(input, c) {
        if acc.len() == 0 {
            Err(syntax_error(here(c), "empty program"@))
        } else {
            Ok(acc)
        }
    } else {
        match read_expr(input, c) {
            Ok((e, c2)) => {
                let c3 = skip_ignored(input, c2);
                if c.index < c3.index && c3.index <= input.len() {
                    program_items(input, c3, acc.push(e))
                } else {
                    Err(syntax_error(here(c), "empty program"@))
                }
            },
            Err(err) => Err(err),
        }
    }
}

/// The expressions of a whole program; a program holds at least one.
pub open spec fn read_program(input: Seq<u8>) -> Result<Seq<SExpr>, ErrorView> {
    program_items(input, skip_ignored(input, start_cursor()), Seq::empty())
}

pub proof fn lemma_skip_progress(input: Seq<u8>, c: Cursor, in_comment: bool)
    requires
        input.len() <= usize::MAX,
    ensures
        skip(input, c, in_comment).index >= c.index,
        c.index <= input.len() ==> skip(input, c, in_comment).index <= input.len(),
    decreases input.len() - c.index, (if in_comment { 1int } else { 0int }),
{
    if at_end(input, c) {
    } else if in_comment {
        if peek(input, c) == '\n' {
            lemma_skip_progress(input, c, false);
        } else {
            lemma_skip_progress(input, advance(input, c), true);
        }
    } else if is_space(peek(input, c)) {
        lemma_skip_progress(input, advance(input, c), false);
    } else if peek(input, c) == ';' {
        lemma_skip_progress(input, advance(input, c), true);
    }
}

/// The reader over the bytes of a source text.
pub struct Parser<'a> {
    input: &'a [u8],
    cur: Cursor,
}

impl<'a> Parser<'a> {
    pub closed spec fn input_view(&self) -> Seq<u8> {
        self.input@
    }

    pub closed spec fn cursor(&self) -> Cursor {
        self.cur
    }

    pub closed spec fn wf(&self) -> bool {
        &&& self.input@.len() <= usize::MAX
        &&& cursor_ok(self.input@, self.cur)
    }

    pub fn new(input: &'a [u8]) -> (r: Self)
        ensures
            r.input_view() == input@,
            r.cursor() == start_cursor(),
            r.wf(),
    {
        let _n = input.len();
        Parser { input, cur: Cursor { index: 0, line: 1, column: 1 } }
    }

    fn is_at_end(&self) -> (r: bool)
        ensures
            r == at_end(self.input@, self.cur),
    {
        self.cur.index >= self.input.len()
    }

    fn peek(&self) -> (r: char)
        requires
            !at_end(self.input@, self.cur),
        ensures
            r == peek(self.input@, self.cur),
    {
        self.input[self.cur.index] as char
    }

    fn advance(&mut self) -> (r: char)
        requires
            old(self).wf(),
            !at_end(old(self).input@, old(self).cur),
        ensures
            final(self).wf(),
            final(self).input@ == old(self).input@,
            r == peek(old(self).input@, old(self).cur),
            final(self).cur == advance(old(self).input@, old(self).cur),
    {
        let ch = self.input[self.cur.index] as char;
        self.cur.index = self.cur.index + 1;
        if ch == '\n' {
            self.cur.line = self.cur.line.saturating_add(1);
            self.cur.column = 1;
        } else {
            self.cur.column = self.cur.column.saturating_add(1);
        }
        ch
    }

    fn current_pos(&self) -> (r: SourcePos)
        ensures
            r == here(self.cur),
    {
        SourcePos::new(self.cur.line, self.cur.column)
    }

    fn is_delimiter(ch: char) -> (r: bool)
        ensures
            r == is_delimiter(ch),
    {
        is_space_char(ch) || ch == '(' || ch == ')' || ch == ';'
    }

    fn skip_ignored(&mut self)
        requires
            old(self).wf(),
        ensures
            final(self).wf(),
            final(self).input@ == old(self).input@,
            final(self).cur == skip_ignored(old(self).input@, old(self).cur),
            final(self).cur.index >= old(self).cur.index,
    {
        proof {
            lemma_skip_progress(old(self).input@, old(self).cur, false);
        }
        loop
            invariant
                self.wf(),
                self.input@ == old(self).input@,
                skip(self.input@, self.cur, false) == skip(old(self).input@, old(self).cur, false),
                self.cur.index >= old(self).cur.index,
            decreases self.input@.len() - self.cur.index,
        {
            if self.is_at_end() {
                return;
            }
            let ch = self.peek();
            if is_space_char(ch) {
                self.advance();
                continue;
            }
            if ch == ';' {
                let ghost before = self.cur.index;
                self.advance();
                while !self.is_at_end() && self.peek() != '\n'
                    invariant
                        self.wf(),
                        self.input@ == old(self).input@,
                        skip(self.input@, self.cur, true) == skip(old(self).input@, old(self).cur, false),
                        self.cur.index >= old(self).cur.index,
                        self.cur.index > before,
                    decreases self.input@.len() - self.cur.index,
                {
                    self.advance();
                }
                continue;
            }
            return;
        }
    }

    /// Collects the characters up to the next delimiter.
    fn read_token(&mut self) -> (r: Vec<char>)
        requires
            old(self).wf(),
        ensures
            final(self).wf(),
            final(self).input@ == old(self).input@,
            (r@, final(self).cur) == token(old(self).input@, old(self).cur, Seq::empty()),
            final(self).cur.index >= old(self).cur.index,
            r@.len() == final(self).cur.index - old(self).cur.index,
    {
        let ghost input = self.input@;
        let ghost start = self.cur;
        let mut out: Vec<char> = Vec::new();
        while !self.is_at_end() && !Self::is_delimiter(self.peek())
            invariant
                self.wf(),
                self.input@ == input,
                token(input, self.cur, out@) == token(input, start, Seq::empty()),
                self.cur.index >= start.index,
                out@.len() == self.cur.index - start.index,
            decreases input.len() - self.cur.index,
        {
            let ch = self.advance();
            out.push(ch);
        }
        out
    }

    fn is_integer_token(t: &[char]) -> (r: bool)
        ensures
            r == is_integer_token(t@),
    {
        if t.len() == 0 {
            return false;
        }
        let start: usize = if t[0] == '+' || t[0] == '-' {
            if t.len() == 1 {
                return false;
            }
            1
        } else {
            0
        };
        let mut i: usize = start;
        proof {
            assert(t@.skip(0) =~= t@);
        }
        while i < t.len()
            invariant
                start <= i <= t@.len(),
                t@.len() > 0,
                start == (if t@[0] == '+' || t@[0] == '-' { 1usize } else { 0usize }),
                start == 1 ==> t@.len() > 1,
                t@.skip(0) == t@,
                forall|j: int| start <= j < i ==> is_digit(#[trigger] t@[j]),
            decreases t@.len() - i,
        {
            if !is_digit_char(t[i]) {
                proof {
                    assert(t@.skip(start as int)[i - start] == t@[i as int]);
                }
                return false;
            }
            i = i + 1;
        }
        proof {
            assert forall|j: int| 0 <= j < t@.skip(start as int).len() implies is_digit(
                #[trigger] t@.skip(start as int)[j],
            ) by {
                assert(t@.skip(start as int)[j] == t@[j + start]);
            }
        }
        true
    }

    fn parse_atom(&mut self) -> (r: Result<Expr, EvalError>)
        requires
            old(self).wf(),
        ensures
            final(self).wf(),
            final(self).input@ == old(self).input@,
            match read_atom(old(self).input@, old(self).cur) {
                Ok((e, c)) => r matches Ok(x) && x@ == e && final(self).cur == c,
                Err(err) => r matches Err(x) && x@ == err,
            },
            r is Ok ==> final(self).cur.index > old(self).cur.index,
    {
        let pos = self.current_pos();
        let t = self.read_token();
        if t.len() == 0 {
            return Err(EvalError::syntax(pos, &str_chars("unexpected token")));
        }
        if Self::is_integer_token(&t) {
            match parse_i64_chars(&t) {
                Some(v) => Ok(Expr::Integer(v, pos)),
                None => {
                    let mut msg = str_chars("invalid integer literal: ");
                    super::text::push_all(&mut msg, &t);
                    Err(EvalError::syntax(pos, &msg))
                },
            }
        } else {
            Ok(Expr::Symbol(t, pos))
        }
    }

    fn parse_string(&mut self) -> (r: Result<Expr, EvalError>)
        requires
            old(self).wf(),
            !at_end(old(self).input@, old(self).cur),
        ensures
            final(self).wf(),
            final(self).input@ == old(self).input@,
            match read_string(old(self).input@, old(self).cur) {
                Ok((e, c)) => r matches Ok(x) && x@ == e && final(self).cur == c,
                Err(err) => r matches Err(x) && x@ == err,
            },
            r is Ok ==> final(self).cur.index > old(self).cur.index,
    {
        let ghost input = self.input@;
        let ghost start = self.cur;
        let pos = self.current_pos();
        self.advance();
        let mut builder: Vec<char> = Vec::new();
        while !self.is_at_end()
            invariant
                self.wf(),
                self.input@ == input,
                input == old(self).input@,
                start == old(self).cur,
                string_body(input, self.cur, builder@, pos) == read_string(input, start),
                self.cur.index > start.index,
            decreases input.len() - self.cur.index,
        {
            let ch = self.advance();
            if ch == '"' {
                return Ok(Expr::String(builder, pos));
            }
            if ch == '\\' {
                if self.is_at_end() {
                    return Err(EvalError::syntax(pos, &str_chars("unterminated string")));
                }
                let escaped = self.advance();
                if escaped == '"' || escaped == '\\' {
                    builder.push(escaped);
                } else if escaped == 'n' {
                    builder.push('\n');
                } else if escaped == 'r' {
                    builder.push('\r');
                } else if escaped == 't' {
                    builder.push('\t');
                } else {
                    let mut msg = str_chars("unsupported escape sequence \\");
                    msg.push(escaped);
                    return Err(EvalError::syntax(self.current_pos(), &msg));
                }
            } else {
                builder.push(ch);
            }
        }
        Err(EvalError::syntax(pos, &str_chars("unterminated string")))
    }

    fn matches_pair(&self, b0: u8, b1: u8) -> (r: bool)
        requires
            self.wf(),
        ensures
            r == matches_pair(self.input@, self.cur, b0, b1),
    {
        if !self.starts_with_pair(b0, b1) {
            return false;
        }
        let end = self.cur.index + 2;
        if end < self.input.len() && !Self::is_delimiter(self.input[end] as char) {
            return false;
        }
        true
    }

    fn starts_with_pair(&self, b0: u8, b1: u8) -> (r: bool)
        ensures
            r == starts_with_pair(self.input@, self.cur, b0, b1),
    {
        self.cur.index < self.input.len() && self.input.len() - self.cur.index >= 2
            && self.input[self.cur.index] == b0 && self.input[self.cur.index + 1] == b1
    }

    fn parse_character(&mut self) -> (r: Result<Expr, EvalError>)
        requires
            old(self).wf(),
            starts_with_pair(old(self).input@, old(self).cur, 35u8, 92u8),
        ensures
            final(self).wf(),
            final(self).input@ == old(self).input@,
            match read_character(old(self).input@, old(self).cur) {
                Ok((e, c)) => r matches Ok(x) && x@ == e && final(self).cur == c,
                Err(err) => r matches Err(x) && x@ == err,
            },
            r is Ok ==> final(self).cur.index > old(self).cur.index,
    {
        let pos = self.current_pos();
        self.advance();
        self.advance();
        let t = self.read_token();
        if t.len() == 0 {
            return Err(EvalError::syntax(pos, &str_chars("invalid character literal")));
        }
        if chars_eq(&t, &str_chars("space")) {
            return Ok(Expr::Character(' ', pos));
        }
        if chars_eq(&t, &str_chars("newline")) {
            return Ok(Expr::Character('\n', pos));
        }
        if chars_eq(&t, &str_chars("tab")) {
            return Ok(Expr::Character('\t', pos));
        }
        if t.len() == 1 {
            return Ok(Expr::character(t[0], pos));
        }
        Err(EvalError::syntax(pos, &str_chars("invalid character literal")))
    }

    fn parse_hash_literal(&mut self) -> (r: Result<Expr, EvalError>)
        requires
            old(self).wf(),
        ensures
            final(self).wf(),
            final(self).input@ == old(self).input@,
            match read_hash(old(self).input@, old(self).cur) {
                Ok((e, c)) => r matches Ok(x) && x@ == e && final(self).cur == c,
                Err(err) => r matches Err(x) && x@ == err,
            },
            r is Ok ==> final(self).cur.index > old(self).cur.index,
    {
        let pos = self.current_pos();
        if self.matches_pair(35u8, 116u8) {
            self.advance();
            self.advance();
            return Ok(Expr::Boolean(true, pos));
        }
        if self.matches_pair(35u8, 102u8) {
            self.advance();
            self.advance();
            return Ok(Expr::Boolean(false, pos));
        }
        if self.starts_with_pair(35u8, 92u8) {
            return self.parse_character();
        }
        Err(EvalError::syntax(pos, &str_chars("invalid hash literal")))
    }

    fn parse_quote_shorthand(&mut self) -> (r: Result<Expr, EvalError>)
        requires
            old(self).wf(),
        ensures
            final(self).wf(),
            final(self).input@ == old(self).input@,
            match read_quote(old(self).input@, old(self).cur) {
                Ok((e, c)) => r matches Ok(x) && x@ == e && final(self).cur == c,
                Err(err) => r matches Err(x) && x@ == err,
            },
            r is Ok ==> final(self).cur.index > old(self).cur.index,
        decreases old(self).input@.len() - old(self).cur.index, 1int,
    {
        let pos = self.current_pos();
        if self.is_at_end() {
            return Err(EvalError::syntax(pos, &str_chars("unexpected end of input")));
        }
        self.advance();
        let quoted = self.parse_expr()?;
        let mut items: Vec<Expr> = Vec::new();
        items.push(Expr::quote_symbol(pos));
        items.push(quoted);
        proof {
            lemma_exprs_view_push(Seq::empty(), items@[0]);
            lemma_exprs_view_push(seq![items@[0]], items@[1]);
            assert(items@ =~= seq![items@[0]].push(items@[1]));
            assert(exprs_view(items@) =~= seq![items@[0]@, items@[1]@]);
        }
        Ok(Expr::List(items, pos))
    }

    fn parse_list(&mut self) -> (r: Result<Expr, EvalError>)
        requires
            old(self).wf(),
        ensures
            final(self).wf(),
            final(self).input@ == old(self).input@,
            match read_list(old(self).input@, old(self).cur) {
                Ok((e, c)) => r matches Ok(x) && x@ == e && final(self).cur == c,
                Err(err) => r matches Err(x) && x@ == err,
            },
            r is Ok ==> final(self).cur.index > old(self).cur.index,
        decreases old(self).input@.len() - old(self).cur.index, 1int,
    {
        let ghost input = self.input@;
        let ghost start = self.cur;
        let pos = self.current_pos();
        if self.is_at_end() {
            return Err(EvalError::syntax(pos, &str_chars("unterminated list")));
        }
        self.advance();
        let mut elements: Vec<Expr> = Vec::new();
        self.skip_ignored();
        while !self.is_at_end() && self.peek() != ')'
            invariant
                self.wf(),
                self.input@ == input,
                input == old(self).input@,
                start == old(self).cur,
                self.cur.index > start.index,
                pos == here(start),
                start.index < input.len(),
                list_items(input, self.cur, exprs_view(elements@), pos) == read_list(input, start),
            decreases input.len() - self.cur.index,
        {
            let ghost before = self.cur;
            let e = self.parse_expr()?;
            self.skip_ignored();
            proof {
                lemma_exprs_view_push(elements@, e);
            }
            elements.push(e);
            assert(self.cur.index > before.index);
        }
        if self.is_at_end() {
            return Err(EvalError::syntax(pos, &str_chars("unterminated list")));
        }
        self.advance();
        Ok(Expr::List(elements, pos))
    }

    fn parse_expr(&mut self) -> (r: Result<Expr, EvalError>)
        requires
            old(self).wf(),
        ensures
            final(self).wf(),
            final(self).input@ == old(self).input@,
            match read_expr(old(self).input@, old(self).cur) {
                Ok((e, c)) => r matches Ok(x) && x@ == e && final(self).cur == c,
                Err(err) => r matches Err(x) && x@ == err,
            },
            r is Ok ==> final(self).cur.index > old(self).cur.index,
        decreases old(self).input@.len() - old(self).cur.index, 2int,
    {
        self.skip_ignored();
        let pos = self.current_pos();
        if self.is_at_end() {
            return Err(EvalError::syntax(pos, &str_chars("unexpected end of input")));
        }
        let ch = self.peek();
        if ch == '(' {
            self.parse_list()
        } else if ch == '"' {
            self.parse_string()
        } else if ch == '#' {
            self.parse_hash_literal()
        } else if ch == '\'' {
            self.parse_quote_shorthand()
        } else {
            self.parse_atom()
        }
    }

    /// Reads all the expressions of the input.
    pub fn parse_program(&mut self) -> (r: Result<Vec<Expr>, EvalError>)
        requires
            old(self).wf(),
            old(self).cursor() == start_cursor(),
        ensures
            match read_program(old(self).input_view()) {
                Ok(es) => r matches Ok(x) && exprs_view(x@) == es,
                Err(err) => r matches Err(x) && x@ == err,
            },
    {
        let ghost input = self.input@;
        let mut expressions: Vec<Expr> = Vec::new();
        self.skip_ignored();
        while !self.is_at_end()
            invariant
                self.wf(),
                self.input@ == input,
                input == old(self).input@,
                program_items(input, self.cur, exprs_view(expressions@)) == read_program(input),
            decreases input.len() - self.cur.index,
        {
            let ghost before = self.cur;
            let e = self.parse_expr()?;
            self.skip_ignored();
            proof {
                lemma_exprs_view_push(expressions@, e);
            }
            expressions.push(e);
        }
        if expressions.len() == 0 {
            return Err(EvalError::syntax(self.current_pos(), &str_chars("empty program")));
        }
        Ok(expressions)
    }
}

} // verus!
