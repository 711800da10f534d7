//! Decoding the reply of an evaluator that runs as a separate process.
//!
//! A reply is a status byte, `S` or `E`, followed by length-prefixed fields:
//! each field is an 8-byte big-endian length and then that many bytes of
//! UTF-8 text. A success carries a fixed number of fields; an error carries
//! one, its message. Nothing may follow the last field.
use vstd::prelude::*;
use vstd::utf8::{decode_utf8, encode_utf8, encode_utf8_decode_utf8, encode_utf8_valid_utf8, valid_utf8};

use super::error::{ErrorView, EvalError};
use super::text::{chars_to_string, push_all, push_str, str_chars};

verus! {

/// What the evaluator process answered.
#[derive(Debug, Clone, PartialEq)]
pub enum HelperResponse {
    /// The fields of a successful evaluation.
    Success(Vec<String>),
    /// The message of a failed evaluation.
    Error(String),
}

/// A reply with its texts as character sequences.
pub enum ResponseView {
    Success(Seq<Seq<char>>),
    Error(Seq<char>),
}

impl View for HelperResponse {
    type V = ResponseView;

    open spec fn view(&self) -> ResponseView {
        match self {
            HelperResponse::Success(fields) => ResponseView::Success(fields@.map_values(|s: String| s@)),
            HelperResponse::Error(m) => ResponseView::Error(m@),
        }
    }
}

/// The number that bytes denote, most significant byte first.
pub open spec fn be_value(bytes: Seq<u8>) -> nat
    decreases bytes.len(),
{
    if bytes.len() == 0 {
        0
    } else {
        be_value(bytes.drop_last()) * 256 + bytes.last() as nat
    }
}

pub open spec fn pow256(n: nat) -> nat
    decreases n,
{
    if n == 0 {
        1
    } else {
        pow256((n - 1) as nat) * 256
    }
}

pub proof fn lemma_be_value_bound(bytes: Seq<u8>)
    ensures
        be_value(bytes) < pow256(bytes.len()),
    decreases bytes.len(),
{
    if bytes.len() > 0 {
        lemma_be_value_bound(bytes.drop_last());
    }
}

pub proof fn lemma_pow256_monotone(a: nat, b: nat)
    requires
        a <= b,
    ensures
        pow256(a) <= pow256(b),
    decreases b,
{
    if a < b {
        lemma_pow256_monotone(a, (b - 1) as nat);
    }
}

/// Reading the field at `cursor`: its text or the error, and where the cursor
/// is left (after the header once the header was read, after the body once
/// the body was read).
pub open spec fn field_at(bytes: Seq<u8>, cursor: int) -> (Result<Seq<char>, ErrorView>, int) {
    if cursor + 8 > bytes.len() {
        (Err(ErrorView::Message("embedded evaluator returned a truncated field header"@)), cursor)
    } else {
        let start = cursor + 8;
        let length = be_value(bytes.subrange(cursor, start));
        if start + length > bytes.len() {
            (Err(ErrorView::Message("embedded evaluator returned a truncated field body"@)), start)
        } else {
            let body = bytes.subrange(start, start + length);
            if valid_utf8(body) {
                (Ok(decode_utf8(body)), start + length)
            } else {
                (Err(ErrorView::Message("embedded evaluator returned invalid utf-8"@)), start + length)
            }
        }
    }
}

/// Reading `n` fields from `cursor` on, after the fields in `acc`: all of them
/// and where the last one ends, or the first error.
pub open spec fn fields_from(bytes: Seq<u8>, cursor: int, n: nat, acc: Seq<Seq<char>>) -> Result<
    (Seq<Seq<char>>, int),
    ErrorView,
>
    decreases n,
{
    if n == 0 {
        Ok((acc, cursor))
    } else {
        match field_at(bytes, cursor).0 {
            Err(e) => Err(e),
            Ok(f) => fields_from(bytes, field_at(bytes, cursor).1, (n - 1) as nat, acc.push(f)),
        }
    }
}

/// The decoded reply, or why it is malformed.
pub open spec fn response(bytes: Seq<u8>, success_fields: nat) -> Result<ResponseView, ErrorView> {
    if bytes.len() == 0 {
        Err(ErrorView::Message("embedded evaluator returned no data"@))
    } else {
        let rest = bytes.subrange(1, bytes.len() as int);
        let parsed: Result<(ResponseView, int), ErrorView> = if bytes[0] == 83u8 {
            match fields_from(rest, 0, success_fields, Seq::empty()) {
                Ok((fields, end)) => Ok((ResponseView::Success(fields), end)),
                Err(e) => Err(e),
            }
        } else if bytes[0] == 69u8 {
            match field_at(rest, 0).0 {
                Ok(m) => Ok((ResponseView::Error(m), field_at(rest, 0).1)),
                Err(e) => Err(e),
            }
        } else {
            Err(ErrorView::Message("embedded evaluator returned an unknown status"@))
        };
        match parsed {
            Err(e) => Err(e),
            Ok((reply, end)) => if end != rest.len() {
                Err(ErrorView::Message("embedded evaluator returned trailing data"@))
            } else {
                Ok(reply)
            },
        }
    }
}

/// `n` as `k` bytes, most significant first (its low `8 * k` bits).
pub open spec fn be_bytes(n: nat, k: nat) -> Seq<u8>
    decreases k,
{
    if k == 0 {
        Seq::empty()
    } else {
        be_bytes(n / 256, (k - 1) as nat).push((n % 256) as u8)
    }
}

/// A field as the format frames it: the length of its UTF-8 text, then the text.
pub open spec fn encode_field(text: Seq<char>) -> Seq<u8> {
    be_bytes(encode_utf8(text).len(), 8) + encode_utf8(text)
}

/// Fields framed one after the other.
pub open spec fn encode_fields(fields: Seq<Seq<char>>) -> Seq<u8>
    decreases fields.len(),
{
    if fields.len() == 0 {
        Seq::empty()
    } else {
        encode_field(fields[0]) + encode_fields(fields.skip(1))
    }
}

/// A text short enough for its length to fit a field header.
pub open spec fn fits_header(text: Seq<char>) -> bool {
    encode_utf8(text).len() < pow256(8)
}

proof fn lemma_be_bytes(n: nat, k: nat)
    requires
        n < pow256(k),
    ensures
        be_bytes(n, k).len() == k,
        be_value(be_bytes(n, k)) == n,
    decreases k,
{
    if k > 0 {
        assert(n / 256 < pow256((k - 1) as nat));
        lemma_be_bytes(n / 256, (k - 1) as nat);
        assert(be_bytes(n, k).drop_last() =~= be_bytes(n / 256, (k - 1) as nat));
    }
}

/// A field framed at `cursor` reads back as its text, and the cursor ends after it.
proof fn lemma_field_at_encoded(bytes: Seq<u8>, cursor: int, text: Seq<char>)
    requires
        fits_header(text),
        0 <= cursor,
        cursor + encode_field(text).len() <= bytes.len(),
        bytes.subrange(cursor, cursor + encode_field(text).len()) == encode_field(text),
    ensures
        field_at(bytes, cursor) == (Ok::<Seq<char>, ErrorView>(text), cursor + encode_field(text).len()),
{
    let body = encode_utf8(text);
    let e = encode_field(text);
    lemma_be_bytes(body.len(), 8);
    assert(bytes.subrange(cursor, cursor + 8) =~= e.subrange(0, 8));
    assert(e.subrange(0, 8) =~= be_bytes(body.len(), 8));
    assert(e.subrange(8, e.len() as int) =~= body);
    assert forall|j: int| 0 <= j < body.len() implies bytes[cursor + 8 + j] == #[trigger] body[j] by {
        assert(bytes.subrange(cursor, cursor + e.len())[8 + j] == e[8 + j]);
    }
    assert(bytes.subrange(cursor + 8, cursor + 8 + body.len()) =~= body);
    encode_utf8_valid_utf8(text);
    encode_utf8_decode_utf8(text);
}

/// Fields framed at `cursor` read back, after `acc`, as those fields, and the
/// cursor ends after the last.
proof fn lemma_fields_from_encoded(bytes: Seq<u8>, cursor: int, fields: Seq<Seq<char>>, acc: Seq<Seq<char>>)
    requires
        forall|i: int| 0 <= i < fields.len() ==> fits_header(#[trigger] fields[i]),
        0 <= cursor,
        cursor + encode_fields(fields).len() <= bytes.len(),
        bytes.subrange(cursor, cursor + encode_fields(fields).len()) == encode_fields(fields),
    ensures
        fields_from(bytes, cursor, fields.len(), acc) == Ok::<(Seq<Seq<char>>, int), ErrorView>(
            (acc + fields, cursor + encode_fields(fields).len()),
        ),
    decreases fields.len(),
{
    if fields.len() == 0 {
        assert(acc + fields =~= acc);
    } else {
        let e0 = encode_field(fields[0]);
        let tail = fields.skip(1);
        let all = encode_fields(fields);
        assert(all == e0 + encode_fields(tail));
        assert(bytes.subrange(cursor, cursor + e0.len()) =~= all.subrange(0, e0.len() as int));
        assert(all.subrange(0, e0.len() as int) =~= e0);
        lemma_field_at_encoded(bytes, cursor, fields[0]);
        let next = cursor + e0.len();
        assert(bytes.subrange(next, next + encode_fields(tail).len()) =~= all.subrange(
            e0.len() as int,
            all.len() as int,
        ));
        assert(all.subrange(e0.len() as int, all.len() as int) =~= encode_fields(tail));
        assert forall|i: int| 0 <= i < tail.len() implies fits_header(#[trigger] tail[i]) by {
            assert(tail[i] == fields[i + 1]);
        }
        lemma_fields_from_encoded(bytes, next, tail, acc.push(fields[0]));
        assert(acc.push(fields[0]) + tail =~= acc + fields);
    }
}

/// A success reply framed as the format describes decodes to its fields.
pub proof fn law_framed_success_decodes(fields: Seq<Seq<char>>)
    requires
        forall|i: int| 0 <= i < fields.len() ==> fits_header(#[trigger] fields[i]),
    ensures
        response(seq![83u8] + encode_fields(fields), fields.len()) == Ok::<ResponseView, ErrorView>(
            ResponseView::Success(fields),
        ),
{
    let bytes = seq![83u8] + encode_fields(fields);
    let rest = bytes.subrange(1, bytes.len() as int);
    assert(rest =~= encode_fields(fields));
    assert(rest.subrange(0, encode_fields(fields).len() as int) =~= encode_fields(fields));
    lemma_fields_from_encoded(rest, 0, fields, Seq::empty());
    assert(Seq::<Seq<char>>::empty() + fields =~= fields);
}

/// An error reply framed as the format describes decodes to its message.
pub proof fn law_framed_error_decodes(message: Seq<char>)
    requires
        fits_header(message),
    ensures
        response(seq![69u8] + encode_field(message), 1) == Ok::<ResponseView, ErrorView>(
            ResponseView::Error(message),
        ),
{
    let bytes = seq![69u8] + encode_field(message);
    let rest = bytes.subrange(1, bytes.len() as int);
    assert(rest =~= encode_field(message));
    assert(rest.subrange(0, encode_field(message).len() as int) =~= encode_field(message));
    lemma_field_at_encoded(rest, 0, message);
}

/// `String::from_utf8` of std: a string exactly when the bytes are valid
/// UTF-8, and then the one they encode.
#[verifier::external_body]
fn utf8_string(bytes: &[u8]) -> (r: Option<String>)
    ensures
        r is Some <==> valid_utf8(bytes@),
        r matches Some(s) ==> s@ == decode_utf8(bytes@),
{
    String::from_utf8(bytes.to_vec()).ok()
}

/// The length in a field header: eight bytes from `at`, most significant first.
fn header_value(bytes: &[u8], at: usize) -> (v: u64)
    requires
        at + 8 <= bytes@.len(),
    ensures
        v == be_value(bytes@.subrange(at as int, at + 8)),
{
    let n = bytes.len();
    let mut v: u64 = 0;
    let mut i: usize = 0;
    proof {
        assert(bytes@.subrange(at as int, at as int) =~= Seq::<u8>::empty());
    }
    while i < 8
        invariant
            i <= 8,
            at + 8 <= bytes@.len(),
            bytes@.len() == n,
            v == be_value(bytes@.subrange(at as int, at + i)),
        decreases 8 - i,
    {
        let ghost prefix = bytes@.subrange(at as int, at + i);
        proof {
            lemma_be_value_bound(prefix);
            lemma_pow256_monotone(prefix.len(), 7);
            reveal_with_fuel(pow256, 8);
            assert(pow256(7) == 0x100_0000_0000_0000nat);
            assert(bytes@.subrange(at as int, at + i + 1).drop_last() =~= prefix);
        }
        let b = bytes[at + i];
        assert(v * 256 + b < 0x1_0000_0000_0000_0000);
        v = v * 256 + b as u64;
        i = i + 1;
    }
    v
}

/// Reads the field at `*cursor` and moves the cursor past what it read.
pub fn read_field(bytes: &[u8], cursor: &mut usize) -> (r: Result<String, EvalError>)
    ensures
        match field_at(bytes@, *old(cursor) as int).0 {
            Ok(s) => r matches Ok(x) && x@ == s,
            Err(e) => r matches Err(x) && x@ == e,
        },
        *final(cursor) == field_at(bytes@, *old(cursor) as int).1,
{
    if *cursor > bytes.len() || bytes.len() - *cursor < 8 {
        return Err(EvalError::message("embedded evaluator returned a truncated field header"));
    }
    let length = header_value(bytes, *cursor);
    *cursor = *cursor + 8;
    if length > (bytes.len() - *cursor) as u64 {
        return Err(EvalError::message("embedded evaluator returned a truncated field body"));
    }
    let start = *cursor;
    let end = start + length as usize;
    *cursor = end;
    let body = &bytes[start..end];
    match utf8_string(body) {
        Some(s) => Ok(s),
        None => Err(EvalError::message("embedded evaluator returned invalid utf-8")),
    }
}

/// Decodes a reply whose success carries `success_fields` fields.
pub fn parse_response(bytes: &[u8], success_fields: usize) -> (r: Result<HelperResponse, EvalError>)
    ensures
        match response(bytes@, success_fields as nat) {
            Ok(v) => r matches Ok(x) && x@ == v,
            Err(e) => r matches Err(x) && x@ == e,
        },
{
    if bytes.len() == 0 {
        return Err(EvalError::message("embedded evaluator returned no data"));
    }
    let status = bytes[0];
    let rest = &bytes[1..bytes.len()];
    let mut cursor: usize = 0;
    let reply = if status == 83u8 {
        let mut fields: Vec<String> = Vec::new();
        let mut i: usize = 0;
        proof {
            assert(fields@.map_values(|s: String| s@) =~= Seq::<Seq<char>>::empty());
        }
        while i < success_fields
            invariant
                i <= success_fields,
                bytes@.len() > 0,
                bytes@[0] == 83u8,
                rest@ == bytes@.subrange(1, bytes@.len() as int),
                fields_from(rest@, 0, success_fields as nat, Seq::empty()) == fields_from(
                    rest@,
                    cursor as int,
                    (success_fields - i) as nat,
                    fields@.map_values(|s: String| s@),
                ),
            decreases success_fields - i,
        {
            let ghost before = fields@;
            let f = match read_field(rest, &mut cursor) {
                Ok(f) => f,
                Err(e) => return Err(e),
            };
            fields.push(f);
            proof {
                assert(fields@.map_values(|s: String| s@) =~= before.map_values(|s: String| s@).push(f@));
            }
            i = i + 1;
        }
        HelperResponse::Success(fields)
    } else if status == 69u8 {
        match read_field(rest, &mut cursor) {
            Ok(message) => HelperResponse::Error(message),
            Err(e) => return Err(e),
        }
    } else {
        return Err(EvalError::message("embedded evaluator returned an unknown status"));
    };
    if cursor != rest.len() {
        return Err(EvalError::message("embedded evaluator returned trailing data"));
    }
    Ok(reply)
}

/// The characters that Unicode counts as white space.
pub open spec fn is_white_space(c: char) -> bool {
    ||| '\t' <= c && c <= '\r'
    ||| c == ' '
    ||| c == '\u{85}'
    ||| c == '\u{a0}'
    ||| c == '\u{1680}'
    ||| '\u{2000}' <= c && c <= '\u{200a}'
    ||| c == '\u{2028}'
    ||| c == '\u{2029}'
    ||| c == '\u{202f}'
    ||| c == '\u{205f}'
    ||| c == '\u{3000}'
}

/// The text without its leading white space.
pub open spec fn trim_start(t: Seq<char>) -> Seq<char>
    decreases t.len(),
{
    if t.len() > 0 && is_white_space(t[0]) {
        trim_start(t.skip(1))
    } else {
        t
    }
}

/// The text without its trailing white space.
pub open spec fn trim_end(t: Seq<char>) -> Seq<char>
    decreases t.len(),
{
    if t.len() > 0 && is_white_space(t.last()) {
        trim_end(t.drop_last())
    } else {
        t
    }
}

/// The text without leading or trailing white space.
pub open spec fn trimmed(t: Seq<char>) -> Seq<char> {
    trim_end(trim_start(t))
}

/// Removes leading and trailing white space.
pub fn trim_white_space(t: &[char]) -> (r: Vec<char>)
    ensures
        r@ == trimmed(t@),
{
    let mut start: usize = 0;
    proof {
        assert(t@.skip(0) =~= t@);
    }
    while start < t.len() && is_white_space_char(t[start])
        invariant
            start <= t@.len(),
            trim_start(t@) == trim_start(t@.skip(start as int)),
        decreases t@.len() - start,
    {
        proof {
            assert(t@.skip(start as int).skip(1) =~= t@.skip(start + 1));
        }
        start = start + 1;
    }
    let ghost front = t@.skip(start as int);
    proof {
        assert(trim_start(t@) == front);
    }
    let mut end: usize = t.len();
    while end > start && is_white_space_char(t[end - 1])
        invariant
            start <= end <= t@.len(),
            front == t@.skip(start as int),
            trimmed(t@) == trim_end(t@.subrange(start as int, end as int)),
        decreases end - start,
    {
        proof {
            assert(t@.subrange(start as int, end as int).drop_last() =~= t@.subrange(start as int, end - 1));
        }
        end = end - 1;
    }
    proof {
        assert(front =~= t@.subrange(start as int, t@.len() as int));
    }
    let mut r: Vec<char> = Vec::new();
    let mut i: usize = start;
    while i < end
        invariant
            start <= i <= end <= t@.len(),
            r@ == t@.subrange(start as int, i as int),
        decreases end - i,
    {
        r.push(t[i]);
        proof {
            assert(r@ =~= t@.subrange(start as int, i + 1));
        }
        i = i + 1;
    }
    r
}

fn is_white_space_char(c: char) -> (r: bool)
    ensures
        r == is_white_space(c),
{
    ('\t' <= c && c <= '\r') || c == ' ' || c == '\u{85}' || c == '\u{a0}' || c == '\u{1680}'
        || ('\u{2000}' <= c && c <= '\u{200a}') || c == '\u{2028}' || c == '\u{2029}' || c == '\u{202f}'
        || c == '\u{205f}' || c == '\u{3000}'
}

/// What running the evaluator process comes to: the fields of its reply when
/// the reply decodes (its message as the error for an error reply);
/// otherwise, for a process that failed, its exit status and `detail`, what
/// it wrote to its error stream; otherwise an invalid response.
pub open spec fn helper_outcome(
    stdout: Seq<u8>,
    success_fields: nat,
    exit_ok: bool,
    status: Seq<char>,
    detail: Seq<char>,
) -> Result<Seq<Seq<char>>, ErrorView> {
    match response(stdout, success_fields) {
        Ok(ResponseView::Success(fields)) => Ok(fields),
        Ok(ResponseView::Error(message)) => Err(ErrorView::Message(message)),
        Err(_) => if !exit_ok {
            if detail.len() == 0 {
                Err(ErrorView::Message("embedded evaluator exited with status "@ + status))
            } else {
                Err(ErrorView::Message("embedded evaluator exited with status "@ + status + ": "@ + detail))
            }
        } else {
            Err(ErrorView::Message("embedded evaluator returned an invalid response"@))
        },
    }
}

/// Decides what a finished evaluator process returned, from what it wrote to
/// its standard output, whether it exited successfully, its exit status as
/// text, and what it wrote to its error stream.
pub fn helper_result(stdout: &[u8], success_fields: usize, exit_ok: bool, status: &str, stderr: &str) -> (r:
    Result<Vec<String>, EvalError>)
    ensures
        match helper_outcome(stdout@, success_fields as nat, exit_ok, status@, trimmed(stderr@)) {
            Ok(fields) => r matches Ok(v) && v@.map_values(|x: String| x@) == fields,
            Err(e) => r matches Err(x) && x@ == e,
        },
{
    match parse_response(stdout, success_fields) {
        Ok(HelperResponse::Success(fields)) => {
            return Ok(fields);
        },
        Ok(HelperResponse::Error(message)) => {
            return Err(EvalError::Message(message));
        },
        Err(_) => {},
    }
    if !exit_ok {
        let detail = trim_white_space(&str_chars(stderr));
        let mut text = str_chars("embedded evaluator exited with status ");
        push_str(&mut text, status);
        if detail.len() > 0 {
            push_str(&mut text, ": ");
            push_all(&mut text, &detail);
        }
        return Err(EvalError::Message(chars_to_string(&text)));
    }
    Err(EvalError::message("embedded evaluator returned an invalid response"))
}

} // verus!
