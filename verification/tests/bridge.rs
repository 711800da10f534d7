use ming::scheme::bridge::{parse_response, read_field, HelperResponse};
use ming::scheme::EvalError;

fn field(text: &[u8]) -> Vec<u8> {
    let mut bytes = (text.len() as u64).to_be_bytes().to_vec();
    bytes.extend_from_slice(text);
    bytes
}

fn reply(status: u8, fields: &[&[u8]]) -> Vec<u8> {
    let mut bytes = vec![status];
    for f in fields {
        bytes.extend(field(f));
    }
    bytes
}

fn message(text: &str) -> EvalError {
    EvalError::Message(text.to_string())
}

#[test]
fn success_with_one_field() {
    assert_eq!(
        parse_response(&reply(b'S', &[b"abc"]), 1),
        Ok(HelperResponse::Success(vec!["abc".to_string()]))
    );
}

#[test]
fn success_with_two_fields() {
    assert_eq!(
        parse_response(&reply(b'S', &[b"42", b"hi\n"]), 2),
        Ok(HelperResponse::Success(vec!["42".to_string(), "hi\n".to_string()]))
    );
    assert_eq!(
        parse_response(&reply(b'S', &[b"", "\u{e9}t\u{e9}".as_bytes()]), 2),
        Ok(HelperResponse::Success(vec![String::new(), "\u{e9}t\u{e9}".to_string()]))
    );
}

#[test]
fn success_with_no_fields() {
    assert_eq!(parse_response(b"S", 0), Ok(HelperResponse::Success(Vec::new())));
}

#[test]
fn error_reply_carries_its_message() {
    assert_eq!(
        parse_response(&reply(b'E', &[b"1:1: unbound variable: x"]), 2),
        Ok(HelperResponse::Error("1:1: unbound variable: x".to_string()))
    );
}

#[test]
fn malformed_replies() {
    assert_eq!(parse_response(b"", 1), Err(message("embedded evaluator returned no data")));
    assert_eq!(
        parse_response(b"X", 1),
        Err(message("embedded evaluator returned an unknown status"))
    );
    let mut trailing = reply(b'S', &[b"abc"]);
    trailing.push(b'z');
    assert_eq!(
        parse_response(&trailing, 1),
        Err(message("embedded evaluator returned trailing data"))
    );
    assert_eq!(
        parse_response(&reply(b'S', &[b"abc", b"d"]), 1),
        Err(message("embedded evaluator returned trailing data"))
    );
    assert_eq!(
        parse_response(&[b'S', 0, 0, 0], 1),
        Err(message("embedded evaluator returned a truncated field header"))
    );
    assert_eq!(
        parse_response(&reply(b'S', &[b"abc"]), 2),
        Err(message("embedded evaluator returned a truncated field header"))
    );
    let mut short = vec![b'E'];
    short.extend_from_slice(&10u64.to_be_bytes());
    short.extend_from_slice(b"abc");
    assert_eq!(
        parse_response(&short, 1),
        Err(message("embedded evaluator returned a truncated field body"))
    );
    let mut huge = vec![b'S'];
    huge.extend_from_slice(&u64::MAX.to_be_bytes());
    assert_eq!(
        parse_response(&huge, 1),
        Err(message("embedded evaluator returned a truncated field body"))
    );
    assert_eq!(
        parse_response(&reply(b'S', &[&[0xff, 0xfe]]), 1),
        Err(message("embedded evaluator returned invalid utf-8"))
    );
}

#[test]
fn read_field_moves_the_cursor_past_what_it_read() {
    let mut bytes = field(b"ab");
    bytes.extend(field(b"cde"));
    let mut cursor = 0usize;
    assert_eq!(read_field(&bytes, &mut cursor), Ok("ab".to_string()));
    assert_eq!(cursor, 10);
    assert_eq!(read_field(&bytes, &mut cursor), Ok("cde".to_string()));
    assert_eq!(cursor, 21);
    assert_eq!(
        read_field(&bytes, &mut cursor),
        Err(message("embedded evaluator returned a truncated field header"))
    );
    assert_eq!(cursor, 21);

    let mut past_end = 100usize;
    assert_eq!(
        read_field(&bytes, &mut past_end),
        Err(message("embedded evaluator returned a truncated field header"))
    );
    assert_eq!(past_end, 100);

    let mut truncated = 0usize;
    assert_eq!(
        read_field(&bytes[..5], &mut truncated),
        Err(message("embedded evaluator returned a truncated field header"))
    );
    let mut body_short = 0usize;
    assert_eq!(
        read_field(&bytes[..9], &mut body_short),
        Err(message("embedded evaluator returned a truncated field body"))
    );
    assert_eq!(body_short, 8);

    let bad = field(&[0xc3]);
    let mut at = 0usize;
    assert_eq!(
        read_field(&bad, &mut at),
        Err(message("embedded evaluator returned invalid utf-8"))
    );
    assert_eq!(at, 9);
}

use ming::scheme::bridge::{helper_result, trim_white_space};

#[test]
fn helper_result_prefers_a_decoded_reply() {
    assert_eq!(
        helper_result(&reply(b'S', &[b"3"]), 1, false, "exit status: 1", "boom"),
        Ok(vec!["3".to_string()])
    );
    assert_eq!(
        helper_result(&reply(b'E', &[b"bad"]), 1, true, "exit status: 0", ""),
        Err(message("bad"))
    );
}

#[test]
fn helper_result_reports_a_failed_process() {
    assert_eq!(
        helper_result(b"", 1, false, "exit status: 2", "  \n panic here \t\n"),
        Err(message("embedded evaluator exited with status exit status: 2: panic here"))
    );
    assert_eq!(
        helper_result(b"junk", 1, false, "exit status: 2", " \u{3000}\n"),
        Err(message("embedded evaluator exited with status exit status: 2"))
    );
    assert_eq!(
        helper_result(b"junk", 1, true, "exit status: 0", "ignored"),
        Err(message("embedded evaluator returned an invalid response"))
    );
}

#[test]
fn trimming_removes_unicode_white_space_at_both_ends() {
    let text: Vec<char> = "\u{a0} a b \u{2003}\n".chars().collect();
    assert_eq!(trim_white_space(&text), vec!['a', ' ', 'b']);
    assert_eq!(trim_white_space(&[]), Vec::<char>::new());
    assert_eq!(trim_white_space(&[' ', '\t']), Vec::<char>::new());
}
