//! The values that evaluation produces, and their written forms.
use vstd::prelude::*;

use super::expr::{exprs_view, lemma_exprs_view_skip, copy_exprs_from, Expr, SExpr};
use super::text::{chars_eq, i64_text, int_text, is_digit, is_space, push_all, push_str, str_chars};

verus! {

/// The primitive procedures of the global environment.
#[derive(Clone, Copy, Debug, PartialEq, Eq, Structural)]
pub enum Builtin {
    Add,
    Subtract,
    Multiply,
    Divide,
    LessThan,
    GreaterThan,
    Equal,
    LessEqual,
    Not,
    Cons,
    Car,
    Cdr,
    NullPredicate,
    List,
    Length,
    Append,
    StringPredicate,
    NumberPredicate,
    BooleanPredicate,
    PairPredicate,
    SymbolPredicate,
    Display,
    Write,
    Newline,
    StringAppend,
    StringLength,
    Substring,
    StringToNumber,
    NumberToString,
    SymbolToString,
    StringToSymbol,
    StringRef,
    CharPredicate,
    StringSet,
    StringCopy,
    EqPredicate,
    EqvPredicate,
    EqualPredicate,
    CharNumeric,
    CharUpcase,
    CharDowncase,
    CharEqual,
    CharLess,
    CharToInteger,
    ListRef,
    ListTail,
    ListPredicate,
    Reverse,
    Memq,
    Memv,
    Member,
    Assq,
    Assv,
    Assoc,
    Abs,
    Quotient,
    Remainder,
    Modulo,
    Min,
    Max,
    ZeroPredicate,
    PositivePredicate,
    NegativePredicate,
    OddPredicate,
    EvenPredicate,
    StringEqual,
    StringLess,
    StringGreater,
    StringLessEqual,
    StringGreaterEqual,
    StringToList,
    ListToString,
    StringFromChars,
    IntegerPredicate,
    ProcedurePredicate,
    Apply,
    MapEach,
    ForEach,
    GreaterEqual,
    Error,
    CharAlphabetic,
    IntegerToChar,
    Gcd,
    Caar,
    Cadr,
    Cdar,
    Cddr,
    Caddr,
    Lcm,
    StringUpcase,
    StringDowncase,
    StringCiEqual,
    MakeString,
    Expt,
}

/// The name under which a primitive procedure is bound.
pub open spec fn builtin_name(b: Builtin) -> Seq<char> {
    match b {
        Builtin::Add => "+"@,
        Builtin::Subtract => "-"@,
        Builtin::Multiply => "*"@,
        Builtin::Divide => "/"@,
        Builtin::LessThan => "<"@,
        Builtin::GreaterThan => ">"@,
        Builtin::Equal => "="@,
        Builtin::LessEqual => "<="@,
        Builtin::Not => "not"@,
        Builtin::Cons => "cons"@,
        Builtin::Car => "car"@,
        Builtin::Cdr => "cdr"@,
        Builtin::NullPredicate => "null?"@,
        Builtin::List => "list"@,
        Builtin::Length => "length"@,
        Builtin::Append => "append"@,
        Builtin::StringPredicate => "string?"@,
        Builtin::NumberPredicate => "number?"@,
        Builtin::BooleanPredicate => "boolean?"@,
        Builtin::PairPredicate => "pair?"@,
        Builtin::SymbolPredicate => "symbol?"@,
        Builtin::Display => "display"@,
        Builtin::Write => "write"@,
        Builtin::Newline => "newline"@,
        Builtin::StringAppend => "string-append"@,
        Builtin::StringLength => "string-length"@,
        Builtin::Substring => "substring"@,
        Builtin::StringToNumber => "string->number"@,
        Builtin::NumberToString => "number->string"@,
        Builtin::SymbolToString => "symbol->string"@,
        Builtin::StringToSymbol => "string->symbol"@,
        Builtin::StringRef => "string-ref"@,
        Builtin::CharPredicate => "char?"@,
        Builtin::StringSet => "string-set!"@,
        Builtin::StringCopy => "string-copy"@,
        Builtin::EqPredicate => "eq?"@,
        Builtin::EqvPredicate => "eqv?"@,
        Builtin::EqualPredicate => "equal?"@,
        Builtin::CharNumeric => "char-numeric?"@,
        Builtin::CharUpcase => "char-upcase"@,
        Builtin::CharDowncase => "char-downcase"@,
        Builtin::CharEqual => "char=?"@,
        Builtin::CharLess => "char<?"@,
        Builtin::CharToInteger => "char->integer"@,
        Builtin::ListRef => "list-ref"@,
        Builtin::ListTail => "list-tail"@,
        Builtin::ListPredicate => "list?"@,
        Builtin::Reverse => "reverse"@,
        Builtin::Memq => "memq"@,
        Builtin::Memv => "memv"@,
        Builtin::Member => "member"@,
        Builtin::Assq => "assq"@,
        Builtin::Assv => "assv"@,
        Builtin::Assoc => "assoc"@,
        Builtin::Abs => "abs"@,
        Builtin::Quotient => "quotient"@,
        Builtin::Remainder => "remainder"@,
        Builtin::Modulo => "modulo"@,
        Builtin::Min => "min"@,
        Builtin::Max => "max"@,
        Builtin::ZeroPredicate => "zero?"@,
        Builtin::PositivePredicate => "positive?"@,
        Builtin::NegativePredicate => "negative?"@,
        Builtin::OddPredicate => "odd?"@,
        Builtin::EvenPredicate => "even?"@,
        Builtin::StringEqual => "string=?"@,
        Builtin::StringLess => "string<?"@,
        Builtin::StringGreater => "string>?"@,
        Builtin::StringLessEqual => "string<=?"@,
        Builtin::StringGreaterEqual => "string>=?"@,
        Builtin::StringToList => "string->list"@,
        Builtin::ListToString => "list->string"@,
        Builtin::StringFromChars => "string"@,
        Builtin::IntegerPredicate => "integer?"@,
        Builtin::ProcedurePredicate => "procedure?"@,
        Builtin::Apply => "apply"@,
        Builtin::MapEach => "map"@,
        Builtin::ForEach => "for-each"@,
        Builtin::GreaterEqual => ">="@,
        Builtin::Error => "error"@,
        Builtin::CharAlphabetic => "char-alphabetic?"@,
        Builtin::IntegerToChar => "integer->char"@,
        Builtin::Gcd => "gcd"@,
        Builtin::Caar => "caar"@,
        Builtin::Cadr => "cadr"@,
        Builtin::Cdar => "cdar"@,
        Builtin::Cddr => "cddr"@,
        Builtin::Caddr => "caddr"@,
        Builtin::Lcm => "lcm"@,
        Builtin::StringUpcase => "string-upcase"@,
        Builtin::StringDowncase => "string-downcase"@,
        Builtin::StringCiEqual => "string-ci=?"@,
        Builtin::MakeString => "make-string"@,
        Builtin::Expt => "expt"@,
    }
}

/// Every primitive procedure, in the order they are bound.
/// The primitive procedure at place `i` of `all_builtins`.
pub open spec fn builtin_at(i: int) -> Builtin {
    if i == 0 {
        Builtin::Add
    } else if i == 1 {
        Builtin::Subtract
    } else if i == 2 {
        Builtin::Multiply
    } else if i == 3 {
        Builtin::Divide
    } else if i == 4 {
        Builtin::LessThan
    } else if i == 5 {
        Builtin::GreaterThan
    } else if i == 6 {
        Builtin::Equal
    } else if i == 7 {
        Builtin::LessEqual
    } else if i == 8 {
        Builtin::Not
    } else if i == 9 {
        Builtin::Cons
    } else if i == 10 {
        Builtin::Car
    } else if i == 11 {
        Builtin::Cdr
    } else if i == 12 {
        Builtin::NullPredicate
    } else if i == 13 {
        Builtin::List
    } else if i == 14 {
        Builtin::Length
    } else if i == 15 {
        Builtin::Append
    } else if i == 16 {
        Builtin::StringPredicate
    } else if i == 17 {
        Builtin::NumberPredicate
    } else if i == 18 {
        Builtin::BooleanPredicate
    } else if i == 19 {
        Builtin::PairPredicate
    } else if i == 20 {
        Builtin::SymbolPredicate
    } else if i == 21 {
        Builtin::Display
    } else if i == 22 {
        Builtin::Write
    } else if i == 23 {
        Builtin::Newline
    } else if i == 24 {
        Builtin::StringAppend
    } else if i == 25 {
        Builtin::StringLength
    } else if i == 26 {
        Builtin::Substring
    } else if i == 27 {
        Builtin::StringToNumber
    } else if i == 28 {
        Builtin::NumberToString
    } else if i == 29 {
        Builtin::SymbolToString
    } else if i == 30 {
        Builtin::StringToSymbol
    } else if i == 31 {
        Builtin::StringRef
    } else if i == 32 {
        Builtin::CharPredicate
    } else if i == 33 {
        Builtin::StringSet
    } else if i == 34 {
        Builtin::StringCopy
    } else if i == 35 {
        Builtin::EqPredicate
    } else if i == 36 {
        Builtin::EqvPredicate
    } else if i == 37 {
        Builtin::EqualPredicate
    } else if i == 38 {
        Builtin::CharNumeric
    } else if i == 39 {
        Builtin::CharUpcase
    } else if i == 40 {
        Builtin::CharDowncase
    } else if i == 41 {
        Builtin::CharEqual
    } else if i == 42 {
        Builtin::CharLess
    } else if i == 43 {
        Builtin::CharToInteger
    } else if i == 44 {
        Builtin::ListRef
    } else if i == 45 {
        Builtin::ListTail
    } else if i == 46 {
        Builtin::ListPredicate
    } else if i == 47 {
        Builtin::Reverse
    } else if i == 48 {
        Builtin::Memq
    } else if i == 49 {
        Builtin::Memv
    } else if i == 50 {
        Builtin::Member
    } else if i == 51 {
        Builtin::Assq
    } else if i == 52 {
        Builtin::Assv
    } else if i == 53 {
        Builtin::Assoc
    } else if i == 54 {
        Builtin::Abs
    } else if i == 55 {
        Builtin::Quotient
    } else if i == 56 {
        Builtin::Remainder
    } else if i == 57 {
        Builtin::Modulo
    } else if i == 58 {
        Builtin::Min
    } else if i == 59 {
        Builtin::Max
    } else if i == 60 {
        Builtin::ZeroPredicate
    } else if i == 61 {
        Builtin::PositivePredicate
    } else if i == 62 {
        Builtin::NegativePredicate
    } else if i == 63 {
        Builtin::OddPredicate
    } else if i == 64 {
        Builtin::EvenPredicate
    } else if i == 65 {
        Builtin::StringEqual
    } else if i == 66 {
        Builtin::StringLess
    } else if i == 67 {
        Builtin::StringGreater
    } else if i == 68 {
        Builtin::StringLessEqual
    } else if i == 69 {
        Builtin::StringGreaterEqual
    } else if i == 70 {
        Builtin::StringToList
    } else if i == 71 {
        Builtin::ListToString
    } else if i == 72 {
        Builtin::StringFromChars
    } else if i == 73 {
        Builtin::IntegerPredicate
    } else if i == 74 {
        Builtin::ProcedurePredicate
    } else if i == 75 {
        Builtin::Apply
    } else if i == 76 {
        Builtin::MapEach
    } else if i == 77 {
        Builtin::ForEach
    } else if i == 78 {
        Builtin::GreaterEqual
    } else if i == 79 {
        Builtin::Error
    } else if i == 80 {
        Builtin::CharAlphabetic
    } else if i == 81 {
        Builtin::IntegerToChar
    } else if i == 82 {
        Builtin::Gcd
    } else if i == 83 {
        Builtin::Caar
    } else if i == 84 {
        Builtin::Cadr
    } else if i == 85 {
        Builtin::Cdar
    } else if i == 86 {
        Builtin::Cddr
    } else if i == 87 {
        Builtin::Caddr
    } else if i == 88 {
        Builtin::Lcm
    } else if i == 89 {
        Builtin::StringUpcase
    } else if i == 90 {
        Builtin::StringDowncase
    } else if i == 91 {
        Builtin::StringCiEqual
    } else if i == 92 {
        Builtin::MakeString
    } else {
        Builtin::Expt
    }
}

/// Every primitive procedure, in the order they are bound.
pub open spec fn all_builtins() -> Seq<Builtin> {
    Seq::new(94, |i: int| builtin_at(i))
}

/// The place of a primitive procedure in `all_builtins`.
pub open spec fn builtin_index(b: Builtin) -> int {
    match b {
        Builtin::Add => 0,
        Builtin::Subtract => 1,
        Builtin::Multiply => 2,
        Builtin::Divide => 3,
        Builtin::LessThan => 4,
        Builtin::GreaterThan => 5,
        Builtin::Equal => 6,
        Builtin::LessEqual => 7,
        Builtin::Not => 8,
        Builtin::Cons => 9,
        Builtin::Car => 10,
        Builtin::Cdr => 11,
        Builtin::NullPredicate => 12,
        Builtin::List => 13,
        Builtin::Length => 14,
        Builtin::Append => 15,
        Builtin::StringPredicate => 16,
        Builtin::NumberPredicate => 17,
        Builtin::BooleanPredicate => 18,
        Builtin::PairPredicate => 19,
        Builtin::SymbolPredicate => 20,
        Builtin::Display => 21,
        Builtin::Write => 22,
        Builtin::Newline => 23,
        Builtin::StringAppend => 24,
        Builtin::StringLength => 25,
        Builtin::Substring => 26,
        Builtin::StringToNumber => 27,
        Builtin::NumberToString => 28,
        Builtin::SymbolToString => 29,
        Builtin::StringToSymbol => 30,
        Builtin::StringRef => 31,
        Builtin::CharPredicate => 32,
        Builtin::StringSet => 33,
        Builtin::StringCopy => 34,
        Builtin::EqPredicate => 35,
        Builtin::EqvPredicate => 36,
        Builtin::EqualPredicate => 37,
        Builtin::CharNumeric => 38,
        Builtin::CharUpcase => 39,
        Builtin::CharDowncase => 40,
        Builtin::CharEqual => 41,
        Builtin::CharLess => 42,
        Builtin::CharToInteger => 43,
        Builtin::ListRef => 44,
        Builtin::ListTail => 45,
        Builtin::ListPredicate => 46,
        Builtin::Reverse => 47,
        Builtin::Memq => 48,
        Builtin::Memv => 49,
        Builtin::Member => 50,
        Builtin::Assq => 51,
        Builtin::Assv => 52,
        Builtin::Assoc => 53,
        Builtin::Abs => 54,
        Builtin::Quotient => 55,
        Builtin::Remainder => 56,
        Builtin::Modulo => 57,
        Builtin::Min => 58,
        Builtin::Max => 59,
        Builtin::ZeroPredicate => 60,
        Builtin::PositivePredicate => 61,
        Builtin::NegativePredicate => 62,
        Builtin::OddPredicate => 63,
        Builtin::EvenPredicate => 64,
        Builtin::StringEqual => 65,
        Builtin::StringLess => 66,
        Builtin::StringGreater => 67,
        Builtin::StringLessEqual => 68,
        Builtin::StringGreaterEqual => 69,
        Builtin::StringToList => 70,
        Builtin::ListToString => 71,
        Builtin::StringFromChars => 72,
        Builtin::IntegerPredicate => 73,
        Builtin::ProcedurePredicate => 74,
        Builtin::Apply => 75,
        Builtin::MapEach => 76,
        Builtin::ForEach => 77,
        Builtin::GreaterEqual => 78,
        Builtin::Error => 79,
        Builtin::CharAlphabetic => 80,
        Builtin::IntegerToChar => 81,
        Builtin::Gcd => 82,
        Builtin::Caar => 83,
        Builtin::Cadr => 84,
        Builtin::Cdar => 85,
        Builtin::Cddr => 86,
        Builtin::Caddr => 87,
        Builtin::Lcm => 88,
        Builtin::StringUpcase => 89,
        Builtin::StringDowncase => 90,
        Builtin::StringCiEqual => 91,
        Builtin::MakeString => 92,
        Builtin::Expt => 93,
    }
}

pub proof fn lemma_all_builtins_index(b: Builtin)
    ensures
        0 <= builtin_index(b) < all_builtins().len(),
        all_builtins()[builtin_index(b)] == b,
        forall|j: int| 0 <= j < all_builtins().len() ==> builtin_index(#[trigger] all_builtins()[j]) == j,
{
    assert forall|j: int| 0 <= j < all_builtins().len() implies builtin_index(#[trigger] all_builtins()[j]) == j by {
    }
}

/// The primitive procedure a name denotes, told apart by the name's length and
/// a few of its characters.
pub open spec fn builtin_named(s: Seq<char>) -> Builtin {
    if s.len() == 1 {
        if s[0] == '+' {
            Builtin::Add
        } else if s[0] == '-' {
            Builtin::Subtract
        } else if s[0] == '*' {
            Builtin::Multiply
        } else if s[0] == '/' {
            Builtin::Divide
        } else if s[0] == '<' {
            Builtin::LessThan
        } else if s[0] == '>' {
            Builtin::GreaterThan
        } else {
            Builtin::Equal
        }
    } else if s.len() == 2 {
        if s[0] == '<' {
            Builtin::LessEqual
        } else {
            Builtin::GreaterEqual
        }
    } else if s.len() == 3 {
        if s[2] == 't' {
            Builtin::Not
        } else if s[2] == 'r' {
            if s[1] == 'a' {
                Builtin::Car
            } else {
                Builtin::Cdr
            }
        } else if s[2] == '?' {
            Builtin::EqPredicate
        } else if s[2] == 's' {
            Builtin::Abs
        } else if s[2] == 'n' {
            Builtin::Min
        } else if s[2] == 'x' {
            Builtin::Max
        } else if s[2] == 'p' {
            Builtin::MapEach
        } else if s[2] == 'd' {
            Builtin::Gcd
        } else {
            Builtin::Lcm
        }
    } else if s.len() == 4 {
        if s[1] == 'o' {
            Builtin::Cons
        } else if s[1] == 'i' {
            Builtin::List
        } else if s[1] == 'q' {
            Builtin::EqvPredicate
        } else if s[1] == 'e' {
            if s[3] == 'q' {
                Builtin::Memq
            } else {
                Builtin::Memv
            }
        } else if s[1] == 's' {
            if s[3] == 'q' {
                Builtin::Assq
            } else {
                Builtin::Assv
            }
        } else if s[1] == 'd' {
            if s[0] == 'o' {
                Builtin::OddPredicate
            } else {
                if s[2] == 'a' {
                    Builtin::Cdar
                } else {
                    Builtin::Cddr
                }
            }
        } else if s[1] == 'a' {
            if s[2] == 'a' {
                Builtin::Caar
            } else {
                Builtin::Cadr
            }
        } else {
            Builtin::Expt
        }
    } else if s.len() == 5 {
        if s[1] == 'u' {
            Builtin::NullPredicate
        } else if s[1] == 'a' {
            if s[0] == 'p' {
                Builtin::PairPredicate
            } else {
                Builtin::Caddr
            }
        } else if s[1] == 'r' {
            if s[0] == 'w' {
                Builtin::Write
            } else {
                Builtin::Error
            }
        } else if s[1] == 'h' {
            Builtin::CharPredicate
        } else if s[1] == 'i' {
            Builtin::ListPredicate
        } else if s[1] == 's' {
            Builtin::Assoc
        } else if s[1] == 'e' {
            Builtin::ZeroPredicate
        } else if s[1] == 'v' {
            Builtin::EvenPredicate
        } else {
            Builtin::Apply
        }
    } else if s.len() == 6 {
        if s[2] == 'n' {
            Builtin::Length
        } else if s[2] == 'p' {
            Builtin::Append
        } else if s[2] == 'u' {
            Builtin::EqualPredicate
        } else if s[2] == 'a' {
            if s[4] == '=' {
                Builtin::CharEqual
            } else {
                Builtin::CharLess
            }
        } else if s[2] == 'm' {
            Builtin::Member
        } else if s[2] == 'd' {
            Builtin::Modulo
        } else {
            Builtin::StringFromChars
        }
    } else if s.len() == 7 {
        if s[4] == 'n' {
            Builtin::StringPredicate
        } else if s[4] == 'e' {
            Builtin::NumberPredicate
        } else if s[4] == 'o' {
            Builtin::SymbolPredicate
        } else if s[4] == 'l' {
            Builtin::Display
        } else if s[4] == 'i' {
            Builtin::Newline
        } else {
            Builtin::Reverse
        }
    } else if s.len() == 8 {
        if s[6] == 'n' {
            if s[0] == 'b' {
                Builtin::BooleanPredicate
            } else {
                Builtin::Quotient
            }
        } else if s[6] == 'e' {
            Builtin::ListRef
        } else if s[6] == '=' {
            Builtin::StringEqual
        } else if s[6] == '<' {
            Builtin::StringLess
        } else if s[6] == '>' {
            Builtin::StringGreater
        } else if s[6] == 'r' {
            Builtin::IntegerPredicate
        } else {
            Builtin::ForEach
        }
    } else if s.len() == 9 {
        if s[6] == 'i' {
            Builtin::Substring
        } else if s[6] == 'a' {
            Builtin::ListTail
        } else if s[6] == 'd' {
            Builtin::Remainder
        } else if s[6] == 'v' {
            if s[0] == 'p' {
                Builtin::PositivePredicate
            } else {
                Builtin::NegativePredicate
            }
        } else if s[6] == '<' {
            Builtin::StringLessEqual
        } else {
            Builtin::StringGreaterEqual
        }
    } else if s.len() == 10 {
        if s[0] == 's' {
            Builtin::StringRef
        } else {
            Builtin::ProcedurePredicate
        }
    } else if s.len() == 11 {
        if s[9] == 't' {
            Builtin::StringSet
        } else if s[9] == 'p' {
            Builtin::StringCopy
        } else if s[9] == 's' {
            Builtin::CharUpcase
        } else if s[9] == '=' {
            Builtin::StringCiEqual
        } else {
            Builtin::MakeString
        }
    } else if s.len() == 12 {
        if s[0] == 's' {
            Builtin::StringToList
        } else {
            Builtin::ListToString
        }
    } else if s.len() == 13 {
        if s[7] == 'a' {
            Builtin::StringAppend
        } else if s[7] == 'l' {
            Builtin::StringLength
        } else if s[7] == 'm' {
            Builtin::CharNumeric
        } else if s[7] == 'w' {
            Builtin::CharDowncase
        } else if s[7] == 'n' {
            Builtin::CharToInteger
        } else if s[7] == '-' {
            Builtin::IntegerToChar
        } else {
            Builtin::StringUpcase
        }
    } else if s.len() == 14 {
        if s[1] == 't' {
            if s[8] == 'n' {
                Builtin::StringToNumber
            } else {
                Builtin::StringToSymbol
            }
        } else if s[1] == 'u' {
            Builtin::NumberToString
        } else {
            Builtin::SymbolToString
        }
    } else if s.len() == 15 {
        Builtin::StringDowncase
    } else {
        Builtin::CharAlphabetic
    }
}

/// A primitive's name reads as one symbol: it is not empty, holds no
/// delimiter, does not start like another kind of literal, and is not a number.
pub proof fn lemma_builtin_name_is_symbol(b: Builtin)
    ensures
        0 < builtin_name(b).len() <= 16,
        forall|j: int| 0 <= j < builtin_name(b).len() ==> !is_space(#[trigger] builtin_name(b)[j])
            && builtin_name(b)[j] != '(' && builtin_name(b)[j] != ')' && builtin_name(b)[j] != ';',
        builtin_name(b)[0] != '"' && builtin_name(b)[0] != '#' && builtin_name(b)[0] != '\'',
        !is_digit(builtin_name(b)[0]),
        builtin_name(b)[0] == '+' || builtin_name(b)[0] == '-' ==> builtin_name(b).len() == 1,
{
    reveal_strlit("+");
    reveal_strlit("-");
    reveal_strlit("*");
    reveal_strlit("/");
    reveal_strlit("<");
    reveal_strlit(">");
    reveal_strlit("=");
    reveal_strlit("<=");
    reveal_strlit("not");
    reveal_strlit("cons");
    reveal_strlit("car");
    reveal_strlit("cdr");
    reveal_strlit("null?");
    reveal_strlit("list");
    reveal_strlit("length");
    reveal_strlit("append");
    reveal_strlit("string?");
    reveal_strlit("number?");
    reveal_strlit("boolean?");
    reveal_strlit("pair?");
    reveal_strlit("symbol?");
    reveal_strlit("display");
    reveal_strlit("write");
    reveal_strlit("newline");
    reveal_strlit("string-append");
    reveal_strlit("string-length");
    reveal_strlit("substring");
    reveal_strlit("string->number");
    reveal_strlit("number->string");
    reveal_strlit("symbol->string");
    reveal_strlit("string->symbol");
    reveal_strlit("string-ref");
    reveal_strlit("char?");
    reveal_strlit("string-set!");
    reveal_strlit("string-copy");
    reveal_strlit("eq?");
    reveal_strlit("eqv?");
    reveal_strlit("equal?");
    reveal_strlit("char-numeric?");
    reveal_strlit("char-upcase");
    reveal_strlit("char-downcase");
    reveal_strlit("char=?");
    reveal_strlit("char<?");
    reveal_strlit("char->integer");
    reveal_strlit("list-ref");
    reveal_strlit("list-tail");
    reveal_strlit("list?");
    reveal_strlit("reverse");
    reveal_strlit("memq");
    reveal_strlit("memv");
    reveal_strlit("member");
    reveal_strlit("assq");
    reveal_strlit("assv");
    reveal_strlit("assoc");
    reveal_strlit("abs");
    reveal_strlit("quotient");
    reveal_strlit("remainder");
    reveal_strlit("modulo");
    reveal_strlit("min");
    reveal_strlit("max");
    reveal_strlit("zero?");
    reveal_strlit("positive?");
    reveal_strlit("negative?");
    reveal_strlit("odd?");
    reveal_strlit("even?");
    reveal_strlit("string=?");
    reveal_strlit("string<?");
    reveal_strlit("string>?");
    reveal_strlit("string<=?");
    reveal_strlit("string>=?");
    reveal_strlit("string->list");
    reveal_strlit("list->string");
    reveal_strlit("string");
    reveal_strlit("integer?");
    reveal_strlit("procedure?");
    reveal_strlit("apply");
    reveal_strlit("map");
    reveal_strlit("for-each");
    reveal_strlit(">=");
    reveal_strlit("error");
    reveal_strlit("char-alphabetic?");
    reveal_strlit("integer->char");
    reveal_strlit("gcd");
    reveal_strlit("caar");
    reveal_strlit("cadr");
    reveal_strlit("cdar");
    reveal_strlit("cddr");
    reveal_strlit("caddr");
    reveal_strlit("lcm");
    reveal_strlit("string-upcase");
    reveal_strlit("string-downcase");
    reveal_strlit("string-ci=?");
    reveal_strlit("make-string");
    reveal_strlit("expt");
}

/// Different primitive procedures have different names: the name tells which.
pub proof fn lemma_builtin_name_injective(a: Builtin, b: Builtin)
    ensures
        builtin_named(builtin_name(a)) == a,
        builtin_name(a) == builtin_name(b) ==> a == b,
{
    lemma_builtin_named(a);
    lemma_builtin_named(b);
}

proof fn lemma_builtin_named(a: Builtin)
    ensures
        builtin_named(builtin_name(a)) == a,
{
    reveal_strlit("+");
    reveal_strlit("-");
    reveal_strlit("*");
    reveal_strlit("/");
    reveal_strlit("<");
    reveal_strlit(">");
    reveal_strlit("=");
    reveal_strlit("<=");
    reveal_strlit("not");
    reveal_strlit("cons");
    reveal_strlit("car");
    reveal_strlit("cdr");
    reveal_strlit("null?");
    reveal_strlit("list");
    reveal_strlit("length");
    reveal_strlit("append");
    reveal_strlit("string?");
    reveal_strlit("number?");
    reveal_strlit("boolean?");
    reveal_strlit("pair?");
    reveal_strlit("symbol?");
    reveal_strlit("display");
    reveal_strlit("write");
    reveal_strlit("newline");
    reveal_strlit("string-append");
    reveal_strlit("string-length");
    reveal_strlit("substring");
    reveal_strlit("string->number");
    reveal_strlit("number->string");
    reveal_strlit("symbol->string");
    reveal_strlit("string->symbol");
    reveal_strlit("string-ref");
    reveal_strlit("char?");
    reveal_strlit("string-set!");
    reveal_strlit("string-copy");
    reveal_strlit("eq?");
    reveal_strlit("eqv?");
    reveal_strlit("equal?");
    reveal_strlit("char-numeric?");
    reveal_strlit("char-upcase");
    reveal_strlit("char-downcase");
    reveal_strlit("char=?");
    reveal_strlit("char<?");
    reveal_strlit("char->integer");
    reveal_strlit("list-ref");
    reveal_strlit("list-tail");
    reveal_strlit("list?");
    reveal_strlit("reverse");
    reveal_strlit("memq");
    reveal_strlit("memv");
    reveal_strlit("member");
    reveal_strlit("assq");
    reveal_strlit("assv");
    reveal_strlit("assoc");
    reveal_strlit("abs");
    reveal_strlit("quotient");
    reveal_strlit("remainder");
    reveal_strlit("modulo");
    reveal_strlit("min");
    reveal_strlit("max");
    reveal_strlit("zero?");
    reveal_strlit("positive?");
    reveal_strlit("negative?");
    reveal_strlit("odd?");
    reveal_strlit("even?");
    reveal_strlit("string=?");
    reveal_strlit("string<?");
    reveal_strlit("string>?");
    reveal_strlit("string<=?");
    reveal_strlit("string>=?");
    reveal_strlit("string->list");
    reveal_strlit("list->string");
    reveal_strlit("string");
    reveal_strlit("integer?");
    reveal_strlit("procedure?");
    reveal_strlit("apply");
    reveal_strlit("map");
    reveal_strlit("for-each");
    reveal_strlit(">=");
    reveal_strlit("error");
    reveal_strlit("char-alphabetic?");
    reveal_strlit("integer->char");
    reveal_strlit("gcd");
    reveal_strlit("caar");
    reveal_strlit("cadr");
    reveal_strlit("cdar");
    reveal_strlit("cddr");
    reveal_strlit("caddr");
    reveal_strlit("lcm");
    reveal_strlit("string-upcase");
    reveal_strlit("string-downcase");
    reveal_strlit("string-ci=?");
    reveal_strlit("make-string");
    reveal_strlit("expt");
}

impl Builtin {
    /// The name under which this procedure is bound.
    pub fn name(self) -> (r: &'static str)
        ensures
            r@ == builtin_name(self),
    {
        match self {
            Builtin::Add => "+",
            Builtin::Subtract => "-",
            Builtin::Multiply => "*",
            Builtin::Divide => "/",
            Builtin::LessThan => "<",
            Builtin::GreaterThan => ">",
            Builtin::Equal => "=",
            Builtin::LessEqual => "<=",
            Builtin::Not => "not",
            Builtin::Cons => "cons",
            Builtin::Car => "car",
            Builtin::Cdr => "cdr",
            Builtin::NullPredicate => "null?",
            Builtin::List => "list",
            Builtin::Length => "length",
            Builtin::Append => "append",
            Builtin::StringPredicate => "string?",
            Builtin::NumberPredicate => "number?",
            Builtin::BooleanPredicate => "boolean?",
            Builtin::PairPredicate => "pair?",
            Builtin::SymbolPredicate => "symbol?",
            Builtin::Display => "display",
            Builtin::Write => "write",
            Builtin::Newline => "newline",
            Builtin::StringAppend => "string-append",
            Builtin::StringLength => "string-length",
            Builtin::Substring => "substring",
            Builtin::StringToNumber => "string->number",
            Builtin::NumberToString => "number->string",
            Builtin::SymbolToString => "symbol->string",
            Builtin::StringToSymbol => "string->symbol",
            Builtin::StringRef => "string-ref",
            Builtin::CharPredicate => "char?",
            Builtin::StringSet => "string-set!",
            Builtin::StringCopy => "string-copy",
            Builtin::EqPredicate => "eq?",
            Builtin::EqvPredicate => "eqv?",
            Builtin::EqualPredicate => "equal?",
            Builtin::CharNumeric => "char-numeric?",
            Builtin::CharUpcase => "char-upcase",
            Builtin::CharDowncase => "char-downcase",
            Builtin::CharEqual => "char=?",
            Builtin::CharLess => "char<?",
            Builtin::CharToInteger => "char->integer",
            Builtin::ListRef => "list-ref",
            Builtin::ListTail => "list-tail",
            Builtin::ListPredicate => "list?",
            Builtin::Reverse => "reverse",
            Builtin::Memq => "memq",
            Builtin::Memv => "memv",
            Builtin::Member => "member",
            Builtin::Assq => "assq",
            Builtin::Assv => "assv",
            Builtin::Assoc => "assoc",
            Builtin::Abs => "abs",
            Builtin::Quotient => "quotient",
            Builtin::Remainder => "remainder",
            Builtin::Modulo => "modulo",
            Builtin::Min => "min",
            Builtin::Max => "max",
            Builtin::ZeroPredicate => "zero?",
            Builtin::PositivePredicate => "positive?",
            Builtin::NegativePredicate => "negative?",
            Builtin::OddPredicate => "odd?",
            Builtin::EvenPredicate => "even?",
            Builtin::StringEqual => "string=?",
            Builtin::StringLess => "string<?",
            Builtin::StringGreater => "string>?",
            Builtin::StringLessEqual => "string<=?",
            Builtin::StringGreaterEqual => "string>=?",
            Builtin::StringToList => "string->list",
            Builtin::ListToString => "list->string",
            Builtin::StringFromChars => "string",
            Builtin::IntegerPredicate => "integer?",
            Builtin::ProcedurePredicate => "procedure?",
            Builtin::Apply => "apply",
            Builtin::MapEach => "map",
            Builtin::ForEach => "for-each",
            Builtin::GreaterEqual => ">=",
            Builtin::Error => "error",
            Builtin::CharAlphabetic => "char-alphabetic?",
            Builtin::IntegerToChar => "integer->char",
            Builtin::Gcd => "gcd",
            Builtin::Caar => "caar",
            Builtin::Cadr => "cadr",
            Builtin::Cdar => "cdar",
            Builtin::Cddr => "cddr",
            Builtin::Caddr => "caddr",
            Builtin::Lcm => "lcm",
            Builtin::StringUpcase => "string-upcase",
            Builtin::StringDowncase => "string-downcase",
            Builtin::StringCiEqual => "string-ci=?",
            Builtin::MakeString => "make-string",
            Builtin::Expt => "expt",
        }
    }

    /// Every primitive procedure, in the order they are bound.
    pub fn all() -> (v: Vec<Builtin>)
        ensures
            v@ == all_builtins(),
    {
        let mut v: Vec<Builtin> = Vec::new();
        let mut i: usize = 0;
        while i < 94
            invariant
                i <= 94,
                v@ =~= Seq::new(i as nat, |j: int| builtin_at(j)),
            decreases 94 - i,
        {
            v.push(Builtin::at(i));
            i = i + 1;
        }
        v
    }

    /// The primitive procedure called `name`, if there is one.
    pub fn named(name: &[char]) -> (r: Option<Builtin>)
        ensures
            match r {
                Some(b) => builtin_name(b) == name@,
                None => forall|b: Builtin| builtin_name(b) != name@,
            },
    {
        let mut i: usize = 0;
        while i < 94
            invariant
                i <= 94,
                forall|j: int| 0 <= j < i ==> builtin_name(#[trigger] all_builtins()[j]) != name@,
            decreases 94 - i,
        {
            let b = Builtin::at(i);
            let text = str_chars(b.name());
            if chars_eq(&text, name) {
                return Some(b);
            }
            proof {
                assert(all_builtins()[i as int] == b);
            }
            i = i + 1;
        }
        proof {
            assert forall|b: Builtin| builtin_name(b) != name@ by {
                lemma_all_builtins_index(b);
            }
        }
        None
    }

    /// The primitive procedure at place `i` of `all_builtins`.
    fn at(i: usize) -> (r: Builtin)
        ensures
            r == builtin_at(i as int),
    {
        match i {
            0 => Builtin::Add,
            1 => Builtin::Subtract,
            2 => Builtin::Multiply,
            3 => Builtin::Divide,
            4 => Builtin::LessThan,
            5 => Builtin::GreaterThan,
            6 => Builtin::Equal,
            7 => Builtin::LessEqual,
            8 => Builtin::Not,
            9 => Builtin::Cons,
            10 => Builtin::Car,
            11 => Builtin::Cdr,
            12 => Builtin::NullPredicate,
            13 => Builtin::List,
            14 => Builtin::Length,
            15 => Builtin::Append,
            16 => Builtin::StringPredicate,
            17 => Builtin::NumberPredicate,
            18 => Builtin::BooleanPredicate,
            19 => Builtin::PairPredicate,
            20 => Builtin::SymbolPredicate,
            21 => Builtin::Display,
            22 => Builtin::Write,
            23 => Builtin::Newline,
            24 => Builtin::StringAppend,
            25 => Builtin::StringLength,
            26 => Builtin::Substring,
            27 => Builtin::StringToNumber,
            28 => Builtin::NumberToString,
            29 => Builtin::SymbolToString,
            30 => Builtin::StringToSymbol,
            31 => Builtin::StringRef,
            32 => Builtin::CharPredicate,
            33 => Builtin::StringSet,
            34 => Builtin::StringCopy,
            35 => Builtin::EqPredicate,
            36 => Builtin::EqvPredicate,
            37 => Builtin::EqualPredicate,
            38 => Builtin::CharNumeric,
            39 => Builtin::CharUpcase,
            40 => Builtin::CharDowncase,
            41 => Builtin::CharEqual,
            42 => Builtin::CharLess,
            43 => Builtin::CharToInteger,
            44 => Builtin::ListRef,
            45 => Builtin::ListTail,
            46 => Builtin::ListPredicate,
            47 => Builtin::Reverse,
            48 => Builtin::Memq,
            49 => Builtin::Memv,
            50 => Builtin::Member,
            51 => Builtin::Assq,
            52 => Builtin::Assv,
            53 => Builtin::Assoc,
            54 => Builtin::Abs,
            55 => Builtin::Quotient,
            56 => Builtin::Remainder,
            57 => Builtin::Modulo,
            58 => Builtin::Min,
            59 => Builtin::Max,
            60 => Builtin::ZeroPredicate,
            61 => Builtin::PositivePredicate,
            62 => Builtin::NegativePredicate,
            63 => Builtin::OddPredicate,
            64 => Builtin::EvenPredicate,
            65 => Builtin::StringEqual,
            66 => Builtin::StringLess,
            67 => Builtin::StringGreater,
            68 => Builtin::StringLessEqual,
            69 => Builtin::StringGreaterEqual,
            70 => Builtin::StringToList,
            71 => Builtin::ListToString,
            72 => Builtin::StringFromChars,
            73 => Builtin::IntegerPredicate,
            74 => Builtin::ProcedurePredicate,
            75 => Builtin::Apply,
            76 => Builtin::MapEach,
            77 => Builtin::ForEach,
            78 => Builtin::GreaterEqual,
            79 => Builtin::Error,
            80 => Builtin::CharAlphabetic,
            81 => Builtin::IntegerToChar,
            82 => Builtin::Gcd,
            83 => Builtin::Caar,
            84 => Builtin::Cadr,
            85 => Builtin::Cdar,
            86 => Builtin::Cddr,
            87 => Builtin::Caddr,
            88 => Builtin::Lcm,
            89 => Builtin::StringUpcase,
            90 => Builtin::StringDowncase,
            91 => Builtin::StringCiEqual,
            92 => Builtin::MakeString,
            _ => Builtin::Expt,
        }
    }
}

/// A procedure made by `lambda`, `define` or a named `let`: its parameters,
/// its body and the environment frame it closes over.
#[derive(Debug)]
pub struct Closure {
    pub parameters: Vec<Vec<char>>,
    pub body: Vec<Expr>,
    pub env: usize,
}

/// A Scheme value. Strings are mutable and shared, so a string value is a
/// handle into the interpreter's string store.
#[derive(Debug)]
pub enum Value {
    Integer(i64),
    Boolean(bool),
    String(usize),
    Character(char),
    Symbol(Vec<char>),
    List(Vec<Value>),
    Void,
    Builtin(Builtin),
    Closure(Closure),
}

/// The mathematical form of a `Value`.
pub enum SValue {
    Integer(i64),
    Boolean(bool),
    Str(usize),
    Character(char),
    Symbol(Seq<char>),
    List(Seq<SValue>),
    Void,
    Builtin(Builtin),
    Closure(Seq<Seq<char>>, Seq<SExpr>, usize),
}

pub open spec fn strings_view(strings: Seq<Vec<char>>) -> Seq<Seq<char>> {
    strings.map_values(|s: Vec<char>| s@)
}

pub open spec fn names_view(names: Seq<Vec<char>>) -> Seq<Seq<char>> {
    names.map_values(|n: Vec<char>| n@)
}

pub open spec fn value_view(v: Value) -> SValue
    decreases v, 0nat,
{
    match v {
        Value::Integer(n) => SValue::Integer(n),
        Value::Boolean(b) => SValue::Boolean(b),
        Value::String(h) => SValue::Str(h),
        Value::Character(c) => SValue::Character(c),
        Value::Symbol(s) => SValue::Symbol(s@),
        Value::List(items) => SValue::List(values_view(items@)),
        Value::Void => SValue::Void,
        Value::Builtin(b) => SValue::Builtin(b),
        Value::Closure(c) => SValue::Closure(names_view(c.parameters@), exprs_view(c.body@), c.env),
    }
}

pub open spec fn values_view(items: Seq<Value>) -> Seq<SValue>
    decreases items, items.len(),
{
    if items.len() == 0 {
        Seq::empty()
    } else {
        values_view(items.drop_last()).push(value_view(items.last()))
    }
}

impl View for Value {
    type V = SValue;

    open spec fn view(&self) -> SValue {
        value_view(*self)
    }
}

pub proof fn lemma_values_view(s: Seq<Value>)
    ensures
        values_view(s).len() == s.len(),
        forall|j: int| 0 <= j < s.len() ==> #[trigger] values_view(s)[j] == value_view(s[j]),
    decreases s.len(),
{
    if s.len() > 0 {
        lemma_values_view(s.drop_last());
    }
}

pub proof fn lemma_values_view_push(s: Seq<Value>, v: Value)
    ensures
        values_view(s.push(v)) == values_view(s).push(value_view(v)),
{
    assert(s.push(v).drop_last() =~= s);
}

/// Anything but `#f` counts as true.
pub open spec fn truthy(v: SValue) -> bool {
    !(v == SValue::Boolean(false))
}

/// Every string handle and environment frame that a value mentions exists.
pub open spec fn value_ok(v: SValue, n_frames: nat, n_strings: nat) -> bool
    decreases v,
{
    match v {
        SValue::Str(h) => h < n_strings,
        SValue::List(items) => forall|i: int|
            0 <= i < items.len() ==> value_ok(#[trigger] items[i], n_frames, n_strings),
        SValue::Closure(_, _, env) => env < n_frames,
        _ => true,
    }
}

pub proof fn lemma_value_ok_item(vs: Seq<SValue>, n_frames: nat, n_strings: nat, i: int)
    requires
        value_ok(SValue::List(vs), n_frames, n_strings),
        0 <= i < vs.len(),
    ensures
        value_ok(vs[i], n_frames, n_strings),
{
    reveal_with_fuel(value_ok, 2);
    let v = SValue::List(vs);
    assert(v->List_0 == vs);
}

pub proof fn lemma_value_ok_list(vs: Seq<SValue>, n_frames: nat, n_strings: nat)
    requires
        values_ok(vs, n_frames, n_strings),
    ensures
        value_ok(SValue::List(vs), n_frames, n_strings),
{
    reveal_with_fuel(value_ok, 2);
    let v = SValue::List(vs);
    assert(v->List_0 == vs);
}

pub open spec fn values_ok(vs: Seq<SValue>, n_frames: nat, n_strings: nat) -> bool {
    forall|i: int| 0 <= i < vs.len() ==> value_ok(#[trigger] vs[i], n_frames, n_strings)
}

/// Adding frames and strings keeps a value's handles valid.
pub proof fn lemma_value_ok_grow(v: SValue, f1: nat, s1: nat, f2: nat, s2: nat)
    requires
        value_ok(v, f1, s1),
        f1 <= f2,
        s1 <= s2,
    ensures
        value_ok(v, f2, s2),
    decreases v,
{
    match v {
        SValue::List(items) => {
            assert forall|i: int| 0 <= i < items.len() implies value_ok(#[trigger] items[i], f2, s2) by {
                lemma_value_ok_grow(items[i], f1, s1, f2, s2);
            }
        },
        _ => {},
    }
}

pub proof fn lemma_values_ok_grow(vs: Seq<SValue>, f1: nat, s1: nat, f2: nat, s2: nat)
    requires
        values_ok(vs, f1, s1),
        f1 <= f2,
        s1 <= s2,
    ensures
        values_ok(vs, f2, s2),
{
    assert forall|i: int| 0 <= i < vs.len() implies value_ok(#[trigger] vs[i], f2, s2) by {
        lemma_value_ok_grow(vs[i], f1, s1, f2, s2);
    }
}

pub fn copy_names(names: &Vec<Vec<char>>) -> (r: Vec<Vec<char>>)
    ensures
        names_view(r@) == names_view(names@),
{
    let mut out: Vec<Vec<char>> = Vec::new();
    let mut i: usize = 0;
    while i < names.len()
        invariant
            i <= names@.len(),
            out@.len() == i,
            forall|j: int| 0 <= j < i ==> #[trigger] out@[j]@ == names@[j]@,
        decreases names@.len() - i,
    {
        out.push(names[i].clone());
        i = i + 1;
    }
    proof {
        assert(names_view(out@) =~= names_view(names@));
    }
    out
}

impl Closure {
    pub fn copy(&self) -> (r: Closure)
        ensures
            names_view(r.parameters@) == names_view(self.parameters@),
            exprs_view(r.body@) == exprs_view(self.body@),
            r.env == self.env,
    {
        let body = copy_exprs_from(&self.body, 0);
        proof {
            assert(self.body@.skip(0) =~= self.body@);
        }
        Closure { parameters: copy_names(&self.parameters), body, env: self.env }
    }
}

impl Value {
    pub fn character(c: char) -> (r: Value)
        ensures
            r@ == SValue::Character(c),
    {
        Value::Character(c)
    }

    /// A copy of this value; a string copy shares the same string.
    pub fn copy(&self) -> (r: Value)
        ensures
            r@ == self@,
        decreases self,
    {
        match self {
            Value::Integer(n) => Value::Integer(*n),
            Value::Boolean(b) => Value::Boolean(*b),
            Value::String(h) => Value::String(*h),
            Value::Character(c) => Value::Character(*c),
            Value::Symbol(s) => Value::Symbol(s.clone()),
            Value::List(items) => {
                proof {
                    assert(decreases_to!(*self => (*self)->List_0));
                }
                let r = copy_values_from(items, 0);
                proof {
                    assert(items@.skip(0) =~= items@);
                }
                Value::List(r)
            },
            Value::Void => Value::Void,
            Value::Builtin(b) => Value::Builtin(*b),
            Value::Closure(c) => {
                let r = c.copy();
                proof {
                    assert(value_view(Value::Closure(r)) == SValue::Closure(names_view(r.parameters@), exprs_view(r.body@), r.env));
                }
                Value::Closure(r)
            },
        }
    }
}

/// Copies of the values of `items` from index `start` on.
pub fn copy_values_from(items: &Vec<Value>, start: usize) -> (r: Vec<Value>)
    requires
        start <= items@.len(),
    ensures
        values_view(r@) == values_view(items@.skip(start as int)),
    decreases items,
{
    let mut out: Vec<Value> = Vec::new();
    let mut i: usize = start;
    while i < items.len()
        invariant
            start <= i <= items@.len(),
            values_view(out@) == values_view(items@.subrange(start as int, i as int)),
        decreases items@.len() - i,
    {
        proof {
            assert(decreases_to!(*items => items[i as int]));
        }
        let c = items[i].copy();
        proof {
            lemma_values_view_push(out@, c);
            assert(items@.subrange(start as int, i + 1) =~= items@.subrange(start as int, i as int).push(items@[i as int]));
            lemma_values_view_push(items@.subrange(start as int, i as int), items@[i as int]);
        }
        out.push(c);
        i = i + 1;
    }
    proof {
        assert(items@.subrange(start as int, i as int) =~= items@.skip(start as int));
    }
    out
}

/// How `write` shows a character inside a string literal.
pub open spec fn escape_char(c: char) -> Seq<char> {
    if c == '\\' {
        seq!['\\', '\\']
    } else if c == '"' {
        seq!['\\', '"']
    } else if c == '\n' {
        seq!['\\', 'n']
    } else if c == '\r' {
        seq!['\\', 'r']
    } else if c == '\t' {
        seq!['\\', 't']
    } else {
        seq![c]
    }
}

pub open spec fn escape_body(s: Seq<char>) -> Seq<char>
    decreases s.len(),
{
    if s.len() == 0 {
        Seq::empty()
    } else {
        escape_body(s.drop_last()) + escape_char(s.last())
    }
}

/// A string written as a literal: quoted, with escapes.
pub open spec fn escape_string(s: Seq<char>) -> Seq<char> {
    seq!['"'] + escape_body(s) + seq!['"']
}

/// A character written as a literal.
pub open spec fn render_character(c: char) -> Seq<char> {
    if c == ' ' {
        "#\\space"@
    } else if c == '\n' {
        "#\\newline"@
    } else if c == '\t' {
        "#\\tab"@
    } else {
        seq!['#', '\\', c]
    }
}

/// The written form of a value; `display` mode shows strings and characters
/// as their bare text. `strings` holds the current contents of each string.
pub open spec fn render(v: SValue, strings: Seq<Seq<char>>, display: bool) -> Seq<char>
    decreases v, 0nat,
{
    match v {
        SValue::Integer(n) => int_text(n as int),
        SValue::Boolean(b) => if b {
            "#t"@
        } else {
            "#f"@
        },
        SValue::Str(h) => if display {
            strings[h as int]
        } else {
            escape_string(strings[h as int])
        },
        SValue::Character(c) => if display {
            seq![c]
        } else {
            render_character(c)
        },
        SValue::Symbol(name) => name,
        SValue::List(items) => if items.len() == 0 {
            "()"@
        } else {
            seq!['('] + render_items(items, strings, display) + seq![')']
        },
        SValue::Void => "#<void>"@,
        SValue::Builtin(b) => "#<procedure:"@ + builtin_name(b) + seq!['>'],
        SValue::Closure(_, _, _) => "#<procedure>"@,
    }
}

/// The written forms of the items, separated by single spaces.
pub open spec fn render_items(items: Seq<SValue>, strings: Seq<Seq<char>>, display: bool) -> Seq<char>
    decreases items, items.len(),
{
    if items.len() == 0 {
        Seq::empty()
    } else if items.len() == 1 {
        render(items[0], strings, display)
    } else {
        render_items(items.drop_last(), strings, display) + seq![' '] + render(items.last(), strings, display)
    }
}

fn push_escaped(out: &mut Vec<char>, s: &Vec<char>)
    ensures
        final(out)@ == old(out)@ + escape_string(s@),
{
    out.push('"');
    let ghost base = out@;
    let mut i: usize = 0;
    while i < s.len()
        invariant
            i <= s@.len(),
            out@ == base + escape_body(s@.take(i as int)),
        decreases s@.len() - i,
    {
        let c = s[i];
        if c == '\\' {
            out.push('\\');
            out.push('\\');
        } else if c == '"' {
            out.push('\\');
            out.push('"');
        } else if c == '\n' {
            out.push('\\');
            out.push('n');
        } else if c == '\r' {
            out.push('\\');
            out.push('r');
        } else if c == '\t' {
            out.push('\\');
            out.push('t');
        } else {
            out.push(c);
        }
        proof {
            assert(s@.take(i + 1).drop_last() =~= s@.take(i as int));
            assert(out@ =~= base + escape_body(s@.take(i + 1)));
        }
        i = i + 1;
    }
    proof {
        assert(s@.take(i as int) =~= s@);
    }
    out.push('"');
    proof {
        assert(final(out)@ =~= old(out)@ + escape_string(s@)) by {
            assert(out@ =~= old(out)@ + escape_string(s@));
        }
    }
}

impl Value {
    /// Appends the written form of this value to `out`.
    pub fn render_into(&self, strings: &Vec<Vec<char>>, display: bool, out: &mut Vec<char>, Ghost(n_frames): Ghost<nat>)
        requires
            value_ok(self@, n_frames, strings@.len()),
        ensures
            final(out)@ == old(out)@ + render(self@, strings_view(strings@), display),
        decreases self,
    {
        let ghost sv = strings_view(strings@);
        match self {
            Value::Integer(n) => {
                let t = i64_text(*n);
                push_all(out, &t);
            },
            Value::Boolean(b) => {
                if *b {
                    push_str(out, "#t");
                } else {
                    push_str(out, "#f");
                }
            },
            Value::String(h) => {
                if display {
                    push_all(out, &strings[*h]);
                } else {
                    push_escaped(out, &strings[*h]);
                }
            },
            Value::Character(c) => {
                if display {
                    out.push(*c);
                    proof {
                        assert(final(out)@ =~= old(out)@ + seq![*c]);
                    }
                } else if *c == ' ' {
                    push_str(out, "#\\space");
                } else if *c == '\n' {
                    push_str(out, "#\\newline");
                } else if *c == '\t' {
                    push_str(out, "#\\tab");
                } else {
                    out.push('#');
                    out.push('\\');
                    out.push(*c);
                    proof {
                        assert(final(out)@ =~= old(out)@ + seq!['#', '\\', *c]);
                    }
                }
            },
            Value::Symbol(name) => {
                push_all(out, name);
            },
            Value::List(items) => {
                proof {
                    assert(decreases_to!(*self => (*self)->List_0));
                }
                if items.len() == 0 {
                    push_str(out, "()");
                } else {
                    out.push('(');
                    let ghost base = out@;
                    let mut i: usize = 0;
                    proof {
                        lemma_values_view(items@);
                    }
                    while i < items.len()
                        invariant
                            i <= items@.len(),
                            items@.len() > 0,
                            *self == Value::List(*items),
                            value_ok(self@, n_frames, strings@.len()),
                            values_view(items@).len() == items@.len(),
                            forall|j: int| 0 <= j < items@.len() ==> #[trigger] values_view(items@)[j] == value_view(items@[j]),
                            sv == strings_view(strings@),
                            out@ == base + render_items(values_view(items@).take(i as int), sv, display),
                        decreases items@.len() - i,
                    {
                        proof {
                            assert(decreases_to!(*items => items[i as int]));
                        }
                        if i > 0 {
                            out.push(' ');
                        }
                        let ghost before = out@;
                        proof {
                            assert(values_view(items@)[i as int] == items@[i as int]@);
                            assert(self@ == SValue::List(values_view(items@)));
                            let vs = values_view(items@);
                            assert(value_ok(SValue::List(vs), n_frames, strings@.len()));
                            lemma_value_ok_item(vs, n_frames, strings@.len(), i as int);
                        }
                        items[i].render_into(strings, display, out, Ghost(n_frames));
                        proof {
                            let vs = values_view(items@);
                            assert(vs.take(i + 1).drop_last() =~= vs.take(i as int));
                            assert(vs.take(i + 1).last() == items@[i as int]@);
                            if i == 0 {
                                assert(vs.take(1)[0] == items@[0]@);
                            }
                        }
                        i = i + 1;
                    }
                    proof {
                        assert(values_view(items@).take(i as int) =~= values_view(items@));
                    }
                    out.push(')');
                    proof {
                        assert(final(out)@ =~= old(out)@ + (seq!['('] + render_items(values_view(items@), sv, display) + seq![')']));
                    }
                }
            },
            Value::Void => {
                push_str(out, "#<void>");
            },
            Value::Builtin(b) => {
                push_str(out, "#<procedure:");
                push_str(out, b.name());
                out.push('>');
                proof {
                    assert(final(out)@ =~= old(out)@ + ("#<procedure:"@ + builtin_name(*b) + seq!['>']));
                }
            },
            Value::Closure(_) => {
                push_str(out, "#<procedure>");
            },
        }
    }
}

} // verus!
