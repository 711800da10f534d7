//! Line and column positions in Scheme source text.
use vstd::prelude::*;

use super::text::{nat_text, usize_text, push_all};

verus! {

/// A position in the source text: a line and a column, both counted from 1.
#[derive(Clone, Copy, Debug, PartialEq, Eq, Structural)]
pub struct SourcePos {
    pub line: usize,
    pub column: usize,
}

/// `line:column`, as positions appear in error messages.
pub open spec fn pos_text(pos: SourcePos) -> Seq<char> {
    nat_text(pos.line as nat) + seq![':'] + nat_text(pos.column as nat)
}

impl SourcePos {
    pub fn new(line: usize, column: usize) -> (r: Self)
        ensures
            r == (SourcePos { line, column }),
    {
        SourcePos { line, column }
    }

    /// The text `line:column`.
    pub fn text(&self) -> (r: Vec<char>)
        ensures
            r@ == pos_text(*self),
    {
        let mut r = usize_text(self.line);
        r.push(':');
        let column = usize_text(self.column);
        push_all(&mut r, &column);
        r
    }
}

} // verus!
