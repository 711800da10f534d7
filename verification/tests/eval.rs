use ming::scheme::value::Builtin;
use ming::scheme::{eval_str, eval_str_with_output, eval_with_step_limit, EvalError, DEFAULT_MAX_STEPS};

fn ok(input: &str) -> String {
    match eval_str(input) {
        Ok(value) => value,
        Err(err) => panic!("{input:?} failed: {err:?}"),
    }
}

fn err(input: &str) -> String {
    match eval_str(input) {
        Ok(value) => panic!("{input:?} gave {value:?}, expected an error"),
        Err(e) => e.display_text(),
    }
}

#[test]
fn doc_example_adds() {
    assert_eq!(eval_str("(+ 1 2)"), Ok("3".to_string()));
}

#[test]
fn arithmetic_folds_over_all_arguments() {
    assert_eq!(ok("(+)"), "0");
    assert_eq!(ok("(*)"), "1");
    assert_eq!(ok("(+ 1 2 3 4)"), "10");
    assert_eq!(ok("(- 10 4 3)"), "3");
    assert_eq!(ok("(- 5)"), "-5");
    assert_eq!(ok("(* 2 3 4)"), "24");
    assert_eq!(ok("(/ 20 3)"), "6");
    assert_eq!(ok("(/ -7 2)"), "-3");
    assert_eq!(ok("(/ 100 5 2)"), "10");
}

#[test]
fn comparisons_chain() {
    assert_eq!(ok("(< 1 2 3)"), "#t");
    assert_eq!(ok("(< 1 3 2)"), "#f");
    assert_eq!(ok("(> 3 2 1)"), "#t");
    assert_eq!(ok("(= 2 2 2)"), "#t");
    assert_eq!(ok("(<= 1 1 2)"), "#t");
    assert_eq!(ok("(<)"), "#t");
    assert_eq!(ok("(= 7)"), "#t");
}

#[test]
fn define_and_call_functions() {
    assert_eq!(ok("(define (square x) (* x x)) (square 12)"), "144");
    assert_eq!(ok("(define x 5) (+ x 1)"), "6");
    assert_eq!(ok("(define x 5)"), "#<void>");
    assert_eq!(
        ok("(define (fact n) (if (= n 0) 1 (* n (fact (- n 1))))) (fact 10)"),
        "3628800"
    );
}

#[test]
fn closures_capture_their_environment() {
    assert_eq!(ok("(define (make-adder n) (lambda (x) (+ x n))) ((make-adder 3) 4)"), "7");
    assert_eq!(
        ok("(define (counter) (define n 0) (lambda () (define n (+ n 1)) n)) ((counter))"),
        "1"
    );
}

#[test]
fn let_and_named_let() {
    assert_eq!(ok("(let ((x 2) (y 3)) (* x y))"), "6");
    assert_eq!(ok("(define x 10) (let ((x 1) (y x)) (+ x y))"), "11");
    assert_eq!(
        ok("(let loop ((i 0) (acc 0)) (if (> i 10) acc (loop (+ i 1) (+ acc i))))"),
        "55"
    );
}

#[test]
fn cond_and_or() {
    assert_eq!(ok("(cond ((< 2 1) 'a) ((> 2 1) 'b) (else 'c))"), "b");
    assert_eq!(ok("(cond (#f 1) (else 2 3))"), "3");
    assert_eq!(ok("(cond (42))"), "42");
    assert_eq!(ok("(cond (#f 1))"), "#<void>");
    assert_eq!(ok("(and 1 2 3)"), "3");
    assert_eq!(ok("(and 1 #f 3)"), "#f");
    assert_eq!(ok("(and)"), "#t");
    assert_eq!(ok("(or #f 5)"), "5");
    assert_eq!(ok("(or)"), "#f");
    assert_eq!(ok("(if 0 'yes 'no)"), "yes");
    assert_eq!(ok("(begin 1 2 3)"), "3");
    assert_eq!(ok("(begin)"), "#<void>");
}

#[test]
fn quoted_data_render() {
    assert_eq!(ok("'(1 \"a\" #\\b sym (nested) #t)"), "(1 \"a\" #\\b sym (nested) #t)");
    assert_eq!(ok("(quote x)"), "x");
    assert_eq!(ok("'()"), "()");
    assert_eq!(ok("#\\space"), "#\\space");
    assert_eq!(ok("#\\newline"), "#\\newline");
    assert_eq!(ok("#\\tab"), "#\\tab");
    assert_eq!(ok("\"a\\nb\\t\\\"q\\\"\\\\\""), "\"a\\nb\\t\\\"q\\\"\\\\\"");
    assert_eq!(ok("car"), "#<procedure:car>");
    assert_eq!(ok("(lambda (x) x)"), "#<procedure>");
    assert_eq!(ok("-"), "#<procedure:->");
    assert_eq!(ok("-12"), "-12");
    assert_eq!(ok("+7"), "7");
}

#[test]
fn list_primitives() {
    assert_eq!(ok("(cons 1 '(2 3))"), "(1 2 3)");
    assert_eq!(ok("(car '(1 2))"), "1");
    assert_eq!(ok("(cdr '(1 2 3))"), "(2 3)");
    assert_eq!(ok("(cdr '(1))"), "()");
    assert_eq!(ok("(list 1 (+ 1 1) 'c)"), "(1 2 c)");
    assert_eq!(ok("(length '(1 2 3))"), "3");
    assert_eq!(ok("(append '(1) '(2 3) '())"), "(1 2 3)");
    assert_eq!(ok("(append)"), "()");
    assert_eq!(ok("(null? '())"), "#t");
    assert_eq!(ok("(null? '(1))"), "#f");
    assert_eq!(ok("(pair? '())"), "#f");
    assert_eq!(ok("(pair? '(1))"), "#t");
    assert_eq!(ok("(not #f)"), "#t");
    assert_eq!(ok("(not 0)"), "#f");
}

#[test]
fn type_predicates() {
    assert_eq!(ok("(number? 1)"), "#t");
    assert_eq!(ok("(number? 'a)"), "#f");
    assert_eq!(ok("(string? \"s\")"), "#t");
    assert_eq!(ok("(symbol? 'a)"), "#t");
    assert_eq!(ok("(boolean? #f)"), "#t");
    assert_eq!(ok("(char? #\\a)"), "#t");
    assert_eq!(ok("(char? \"a\")"), "#f");
}

#[test]
fn string_primitives() {
    assert_eq!(ok("(string-append \"foo\" \"bar\")"), "\"foobar\"");
    assert_eq!(ok("(string-append)"), "\"\"");
    assert_eq!(ok("(string-length \"hello\")"), "5");
    assert_eq!(ok("(substring \"hello\" 1 3)"), "\"el\"");
    assert_eq!(ok("(substring \"hello\" 5 5)"), "\"\"");
    assert_eq!(ok("(string-ref \"abc\" 1)"), "#\\b");
    assert_eq!(ok("(string->number \"42\")"), "42");
    assert_eq!(ok("(string->number \"+7\")"), "7");
    assert_eq!(ok("(string->number \"-13\")"), "-13");
    assert_eq!(ok("(string->number \"abc\")"), "#f");
    assert_eq!(ok("(string->number \"-\")"), "#f");
    assert_eq!(ok("(string->number \"99999999999999999999\")"), "#f");
    assert_eq!(ok("(number->string 12)"), "\"12\"");
    assert_eq!(ok("(number->string -12)"), "\"-12\"");
    assert_eq!(ok("(symbol->string 'abc)"), "\"abc\"");
    assert_eq!(ok("(string->symbol \"abc\")"), "abc");
}

#[test]
fn string_set_is_seen_through_every_reference() {
    assert_eq!(ok("(define s \"abc\") (define t s) (string-set! t 0 #\\z) s"), "\"zbc\"");
    assert_eq!(
        ok("(define a \"abc\") (define b (string-copy a)) (string-set! b 0 #\\x) (list a b)"),
        "(\"abc\" \"xbc\")"
    );
    assert_eq!(ok("(define s \"abc\") (string-set! s 2 #\\!) (string-ref s 2)"), "#\\!");
}

#[test]
fn output_of_display_write_and_newline() {
    assert_eq!(
        eval_str_with_output("(display \"hi\") (newline) (write \"hi\") 42"),
        Ok(("42".to_string(), "hi\n\"hi\"".to_string()))
    );
    assert_eq!(
        eval_str_with_output("(display '(1 \"two\" #\\3)) (write #\\a)"),
        Ok(("#<void>".to_string(), "(1 two 3)#\\a".to_string()))
    );
    assert_eq!(eval_str_with_output("7"), Ok(("7".to_string(), String::new())));
}

#[test]
fn eval_str_is_the_value_part_of_eval_str_with_output() {
    let input = "(display 1) (+ 2 3)";
    let (value, output) = eval_str_with_output(input).unwrap();
    assert_eq!(eval_str(input), Ok(value));
    assert_eq!(output, "1");
}

#[test]
fn comments_and_whitespace_are_ignored() {
    assert_eq!(ok("; leading comment\n  (+ 1 ; inline\n 2)\n\t"), "3");
}

#[test]
fn runtime_errors_carry_positions() {
    assert_eq!(err("(car '())"), "1:6: type error: car expects a non-empty list");
    assert_eq!(err("foo"), "1:1: unbound variable: foo");
    assert_eq!(err("(1 2)"), "1:2: attempted to call non-procedure");
    assert_eq!(err("(/ 1 0)"), "1:6: division by zero");
    assert_eq!(err("(display)"), "1:2: display: expected exactly 1 argument");
    assert_eq!(err("(newline 1)"), "1:2: newline: expected exactly 0 arguments");
    assert_eq!(err("((lambda (x) x))"), "1:2: lambda: expected 1 arguments");
    assert_eq!(err("(- )"), "1:2: -: expected at least 1 argument");
    assert_eq!(err("(/ 1)"), "1:2: /: expected at least 2 arguments");
    assert_eq!(err("(string-ref \"abc\" 5)"), "1:19: string-ref: index out of range");
    assert_eq!(err("(substring \"abc\" 2 1)"), "1:20: substring: end index out of range");
    assert_eq!(err("(substring \"abc\" 4 4)"), "1:18: substring: start index out of range");
    assert_eq!(err("(string-set! \"abc\" 3 #\\a)"), "1:20: string-set!: index out of range");
    assert_eq!(err("(+ 1 \"a\")"), "1:6: type error: + expects integer arguments");
    assert_eq!(err("(define x 1)\n(car x)"), "2:6: type error: car expects list arguments");
    assert_eq!(err("(string-length 1)"), "1:16: type error: string-length expects string arguments");
    assert_eq!(err("(symbol->string \"a\")"), "1:17: type error: symbol->string expects symbol arguments");
    assert_eq!(err("(string-set! \"a\" 0 1)"), "1:20: type error: string-set! expects character arguments");
}

#[test]
fn syntax_errors_carry_positions() {
    assert_eq!(err("(if 1 2)"), "1:2: syntax error: if expects exactly 3 arguments");
    assert_eq!(err("()"), "1:1: syntax error: cannot evaluate empty list");
    assert_eq!(err("(quote)"), "1:2: syntax error: quote expects exactly 1 argument");
    assert_eq!(err("(define x)"), "1:2: syntax error: define expects a target and value");
    assert_eq!(err("(define x 1 2)"), "1:2: syntax error: define variable form expects exactly one value expression");
    assert_eq!(err("(define (f))"), "1:2: syntax error: define expects a target and value");
    assert_eq!(err("(define 1 2)"), "1:9: syntax error: invalid define target");
    assert_eq!(err("(lambda (1) 1)"), "1:10: syntax error: parameters must be symbols");
    assert_eq!(err("(lambda x 1)"), "1:9: syntax error: lambda parameters must be a list");
    assert_eq!(err("(let ((x)) x)"), "1:7: syntax error: let binding must have exactly 2 elements");
    assert_eq!(err("(cond)"), "1:2: syntax error: cond expects at least one clause");
    assert_eq!(err("(cond (else 1) (#t 2))"), "1:8: syntax error: else clause must be last");
    assert_eq!(err(""), "1:1: syntax error: empty program");
    assert_eq!(err("  \n ;c"), "2:4: syntax error: empty program");
    assert_eq!(err("\"abc"), "1:1: syntax error: unterminated string");
    assert_eq!(err("(+ 1"), "1:1: syntax error: unterminated list");
    assert_eq!(err("#x"), "1:1: syntax error: invalid hash literal");
    assert_eq!(err("#\\ab"), "1:1: syntax error: invalid character literal");
    assert_eq!(err("\"a\\q\""), "1:5: syntax error: unsupported escape sequence \\q");
    assert_eq!(err(")"), "1:1: syntax error: unexpected token");
    assert_eq!(
        err("99999999999999999999"),
        "1:1: syntax error: invalid integer literal: 99999999999999999999"
    );
}

#[test]
fn deep_recursion_within_the_limit() {
    assert_eq!(ok("(let loop ((i 0)) (if (< i 990) (loop (+ i 1)) i))"), "990");
    assert_eq!(
        ok("(define (count n) (if (= n 0) 0 (+ 1 (count (- n 1))))) (count 600)"),
        "600"
    );
    assert_eq!(
        eval_str("(define (count n) (if (= n 0) 0 (+ 1 (count (- n 1))))) (count 700)"),
        Err(EvalError::StepLimitExceeded { max_steps: DEFAULT_MAX_STEPS })
    );
}

#[test]
fn runaway_recursion_hits_the_step_limit() {
    assert_eq!(
        eval_str("(define (f) (f)) (f)"),
        Err(EvalError::StepLimitExceeded { max_steps: DEFAULT_MAX_STEPS })
    );
    assert_eq!(
        err("(define (f n) (+ 1 (f n))) (f 0)"),
        format!("step limit exceeded after {DEFAULT_MAX_STEPS} eval dispatch(es)")
    );
}

#[test]
fn a_smaller_limit_stops_sooner_and_a_larger_one_agrees() {
    let program = "(define (count n) (if (= n 0) 0 (+ 1 (count (- n 1))))) (count 50)";
    assert_eq!(
        eval_with_step_limit(program, 10),
        Err(EvalError::StepLimitExceeded { max_steps: 10 })
    );
    assert_eq!(eval_with_step_limit(program, 200), Ok(("50".to_string(), String::new())));
    assert_eq!(eval_with_step_limit(program, 1500), Ok(("50".to_string(), String::new())));
    assert_eq!(eval_with_step_limit("1", 0), Err(EvalError::StepLimitExceeded { max_steps: 0 }));
    assert_eq!(eval_with_step_limit("1", 1), Ok(("1".to_string(), String::new())));
}

#[test]
fn error_constructors() {
    assert_eq!(EvalError::message("boom"), EvalError::Message("boom".to_string()));
    assert_eq!(EvalError::message("boom").display_text(), "boom");
    assert_eq!(EvalError::step_limit_exceeded(7), EvalError::StepLimitExceeded { max_steps: 7 });
    assert_eq!(
        EvalError::step_limit_exceeded(7).display_text(),
        "step limit exceeded after 7 eval dispatch(es)"
    );
}

#[test]
fn every_primitive_is_bound_under_its_name() {
    let all = Builtin::all();
    assert_eq!(all.len(), 94);
    for (i, b) in all.iter().enumerate() {
        assert_eq!(eval_str(b.name()), Ok(format!("#<procedure:{}>", b.name())));
        for other in &all[i + 1..] {
            assert_ne!(b.name(), other.name());
        }
    }
}

#[test]
fn a_definition_is_read_back_and_leaves_other_names_alone() {
    assert_eq!(ok("(define x 1) (define x 2) x"), "2");
    assert_eq!(ok("(define x 1) (define y 2) x"), "1");
    assert_eq!(ok("(define car 5) car"), "5");
    assert_eq!(ok("(define x 1) (define (f) (define x 3) x) (list (f) x)"), "(3 1)");
}

#[test]
fn output_accumulates_in_order() {
    assert_eq!(
        eval_str_with_output("(display 1) (display \"two\") (newline) (write #\\space)"),
        Ok(("#<void>".to_string(), "1two\n#\\space".to_string()))
    );
    assert_eq!(
        eval_str_with_output("(display 1) (car '())"),
        Err(EvalError::Message("1:18: type error: car expects a non-empty list".to_string()))
    );
}

#[test]
fn integer_arithmetic_wraps_on_overflow() {
    assert_eq!(ok("(+ 9223372036854775807 1)"), "-9223372036854775808");
    assert_eq!(ok("(- -9223372036854775808)"), "-9223372036854775808");
    assert_eq!(ok("(* 4611686018427387904 2)"), "-9223372036854775808");
    assert_eq!(ok("(/ -9223372036854775808 -1)"), "-9223372036854775808");
}

#[test]
fn the_reader_takes_each_byte_as_a_character() {
    assert_eq!(ok("(string-length \"\u{e9}\")"), "2");
    assert_eq!(err("#\\\u{e9}"), "1:1: syntax error: invalid character literal");
}

#[test]
fn special_form_shapes_are_checked() {
    assert_eq!(err("(let x)"), "1:2: syntax error: let expects bindings and a body");
    assert_eq!(err("(let loop ((i 0)))"), "1:2: syntax error: named let expects bindings and a body");
    assert_eq!(err("(let loop 5 1)"), "1:11: syntax error: named let bindings must be a list");
    assert_eq!(err("(let 5 1)"), "1:6: syntax error: let bindings must be a list");
    assert_eq!(err("(let (x) 1)"), "1:7: syntax error: let bindings must be lists");
    assert_eq!(err("(let ((1 2)) 1)"), "1:8: syntax error: let binding name must be a symbol");
    assert_eq!(err("(cond 1)"), "1:7: syntax error: cond clauses must be lists");
    assert_eq!(err("(cond ())"), "1:7: syntax error: cond clause cannot be empty");
    assert_eq!(err("(define () 1)"), "1:9: syntax error: define function form requires a function name");
    assert_eq!(err("(define (1) 1)"), "1:10: syntax error: function name must be a symbol");
    assert_eq!(err("(lambda (x))"), "1:2: syntax error: lambda expects a parameter list and body");
}

#[test]
fn primitive_argument_checks() {
    assert_eq!(err("(define (f x) x) (f)"), "1:19: lambda: expected 1 arguments");
    assert_eq!(err("(+ 1 'a)"), "1:6: type error: + expects integer arguments");
    assert_eq!(err("(car 1 2)"), "1:2: car: expected exactly 1 argument");
    assert_eq!(err("(cons 1 2)"), "1:9: type error: cons expects list arguments");
    assert_eq!(err("(length 5)"), "1:9: type error: length expects list arguments");
    assert_eq!(err("(append '(1) 2)"), "1:14: type error: append expects list arguments");
    assert_eq!(err("(< 1 'a)"), "1:6: type error: < expects integer arguments");
    assert_eq!(ok("(< 2 1 'a)"), "#f");
    assert_eq!(err("(string-append \"a\" 1)"), "1:20: type error: string-append expects string arguments");
    assert_eq!(err("(substring \"abc\" 0)"), "1:2: substring: expected exactly 3 arguments");
    assert_eq!(err("(string-ref \"abc\" -1)"), "1:19: string-ref: index out of range");
}

fn escape(s: &str) -> String {
    let mut out = String::from("\"");
    for c in s.chars() {
        match c {
            '\\' => out.push_str("\\\\"),
            '"' => out.push_str("\\\""),
            '\n' => out.push_str("\\n"),
            '\r' => out.push_str("\\r"),
            '\t' => out.push_str("\\t"),
            _ => out.push(c),
        }
    }
    out.push('"');
    out
}

#[test]
fn a_string_literal_evaluates_to_itself() {
    for s in ["", "plain", "with \"quotes\"", "back\\slash", "lines\nand\ttabs\r", "(+ 1 2) ; not code", "\u{1}\u{7f}"] {
        let literal = escape(s);
        assert_eq!(eval_str_with_output(&literal), Ok((literal.clone(), String::new())));
    }
}

#[test]
fn a_character_literal_evaluates_to_itself() {
    let mut literals = vec!["#\\space".to_string(), "#\\newline".to_string(), "#\\tab".to_string()];
    for b in 33u8..127 {
        let c = b as char;
        if c != '(' && c != ')' && c != ';' {
            literals.push(format!("#\\{c}"));
        }
    }
    for literal in literals {
        assert_eq!(eval_str_with_output(&literal), Ok((literal.clone(), String::new())));
    }
}

#[test]
fn eq_eqv_and_equal() {
    assert_eq!(ok("(eq? 'a 'a)"), "#t");
    assert_eq!(ok("(eq? \"a\" \"a\")"), "#f");
    assert_eq!(ok("(define s \"a\") (eq? s s)"), "#t");
    assert_eq!(ok("(eqv? 1 1)"), "#t");
    assert_eq!(ok("(eqv? 1 2)"), "#f");
    assert_eq!(ok("(eqv? #\\a #\\a)"), "#t");
    assert_eq!(ok("(eqv? '() '())"), "#t");
    assert_eq!(ok("(eqv? '(1) '(1))"), "#f");
    assert_eq!(ok("(eq? car car)"), "#t");
    assert_eq!(ok("(eqv? (lambda (x) x) (lambda (x) x))"), "#f");
    assert_eq!(ok("(equal? '(1 \"a\" (2 #\\b)) (list 1 \"a\" (list 2 #\\b)))"), "#t");
    assert_eq!(ok("(equal? \"ab\" (string-append \"a\" \"b\"))"), "#t");
    assert_eq!(ok("(equal? '(1 2) '(1 3))"), "#f");
    assert_eq!(ok("(equal? '(1 2) '(1 2 3))"), "#f");
    assert_eq!(ok("(equal? 1 \"1\")"), "#f");
    assert_eq!(err("(eq? 1)"), "1:2: eq?: expected exactly 2 arguments");
    assert_eq!(err("(equal? 1 2 3)"), "1:2: equal?: expected exactly 2 arguments");
}

#[test]
fn character_primitives() {
    assert_eq!(ok("(char-numeric? #\\5)"), "#t");
    assert_eq!(ok("(char-numeric? #\\x)"), "#f");
    assert_eq!(ok("(char-upcase #\\a)"), "#\\A");
    assert_eq!(ok("(char-upcase #\\1)"), "#\\1");
    assert_eq!(ok("(char-downcase #\\Q)"), "#\\q");
    assert_eq!(ok("(char-downcase #\\space)"), "#\\space");
    assert_eq!(ok("(char=? #\\a #\\a)"), "#t");
    assert_eq!(ok("(char=? #\\a #\\b)"), "#f");
    assert_eq!(ok("(char<? #\\a #\\b)"), "#t");
    assert_eq!(ok("(char<? #\\b #\\a)"), "#f");
    assert_eq!(ok("(char->integer #\\A)"), "65");
    assert_eq!(ok("(char->integer #\\newline)"), "10");
    assert_eq!(err("(char-upcase 1)"), "1:14: type error: char-upcase expects character arguments");
    assert_eq!(err("(char<? #\\a 1)"), "1:13: type error: char<? expects character arguments");
    assert_eq!(err("(char->integer)"), "1:2: char->integer: expected exactly 1 argument");
}

#[test]
fn list_access_primitives() {
    assert_eq!(ok("(list-ref '(a b c) 1)"), "b");
    assert_eq!(err("(list-ref '(a) 1)"), "1:16: list-ref: index out of range");
    assert_eq!(err("(list-ref '(a) -1)"), "1:16: list-ref: index out of range");
    assert_eq!(err("(list-ref 5 0)"), "1:11: type error: list-ref expects list arguments");
    assert_eq!(ok("(list-tail '(1 2 3) 2)"), "(3)");
    assert_eq!(ok("(list-tail '(1 2 3) 3)"), "()");
    assert_eq!(ok("(list-tail 5 0)"), "5");
    assert_eq!(err("(list-tail '(1) 2)"), "1:17: list-tail: index out of range");
    assert_eq!(ok("(list? '(1))"), "#t");
    assert_eq!(ok("(list? 1)"), "#f");
    assert_eq!(ok("(reverse '(1 2 3))"), "(3 2 1)");
    assert_eq!(ok("(reverse '())"), "()");
}

#[test]
fn member_and_association_searches() {
    assert_eq!(ok("(memq 'c '(a b c d))"), "(c d)");
    assert_eq!(ok("(memq 'z '(a))"), "#f");
    assert_eq!(ok("(memq \"b\" '(\"a\" \"b\"))"), "#f");
    assert_eq!(ok("(member \"b\" '(\"a\" \"b\"))"), "(\"b\")");
    assert_eq!(ok("(memv 2 5)"), "#f");
    assert_eq!(ok("(assq 'b '((a 1) (b 2)))"), "(b 2)");
    assert_eq!(ok("(assoc \"b\" '((\"a\" 1) (\"b\" 2)))"), "(\"b\" 2)");
    assert_eq!(ok("(assv 3 '((1 x) 2 () (3 y)))"), "(3 y)");
    assert_eq!(ok("(assq 'q '((a 1)))"), "#f");
    assert_eq!(err("(assq 'x 5)"), "1:10: type error: assq expects list arguments");
    assert_eq!(err("(member 1)"), "1:2: member: expected exactly 2 arguments");
}

#[test]
fn integer_division_primitives() {
    assert_eq!(ok("(quotient 17 5)"), "3");
    assert_eq!(ok("(quotient -17 5)"), "-3");
    assert_eq!(ok("(remainder 17 5)"), "2");
    assert_eq!(ok("(remainder -17 5)"), "-2");
    assert_eq!(ok("(modulo 17 5)"), "2");
    assert_eq!(ok("(modulo -17 5)"), "3");
    assert_eq!(ok("(modulo 17 -5)"), "-3");
    assert_eq!(ok("(modulo -15 5)"), "0");
    assert_eq!(ok("(remainder -9223372036854775808 -1)"), "0");
    assert_eq!(err("(modulo 1 0)"), "1:11: division by zero");
    assert_eq!(err("(quotient 1)"), "1:2: quotient: expected exactly 2 arguments");
}

#[test]
fn integer_tests_and_extremes() {
    assert_eq!(ok("(abs -5)"), "5");
    assert_eq!(ok("(abs 5)"), "5");
    assert_eq!(ok("(abs -9223372036854775808)"), "-9223372036854775808");
    assert_eq!(ok("(min 3 1 2)"), "1");
    assert_eq!(ok("(max 3 1 2)"), "3");
    assert_eq!(ok("(max 7)"), "7");
    assert_eq!(err("(min)"), "1:2: min: expected at least 1 argument");
    assert_eq!(err("(max 1 'a)"), "1:8: type error: max expects integer arguments");
    assert_eq!(ok("(zero? 0)"), "#t");
    assert_eq!(ok("(positive? -1)"), "#f");
    assert_eq!(ok("(negative? -1)"), "#t");
    assert_eq!(ok("(odd? -3)"), "#t");
    assert_eq!(ok("(even? -3)"), "#f");
    assert_eq!(ok("(even? 0)"), "#t");
    assert_eq!(err("(odd? #t)"), "1:7: type error: odd? expects integer arguments");
}

#[test]
fn string_comparisons() {
    assert_eq!(ok("(string=? \"abc\" \"abc\")"), "#t");
    assert_eq!(ok("(string=? \"abc\" \"abd\")"), "#f");
    assert_eq!(ok("(string<? \"abc\" \"abd\")"), "#t");
    assert_eq!(ok("(string<? \"ab\" \"abc\")"), "#t");
    assert_eq!(ok("(string<? \"abc\" \"ab\")"), "#f");
    assert_eq!(ok("(string>? \"b\" \"abc\")"), "#t");
    assert_eq!(ok("(string<=? \"abc\" \"abc\")"), "#t");
    assert_eq!(ok("(string>=? \"a\" \"b\")"), "#f");
    assert_eq!(ok("(string<? \"Z\" \"a\")"), "#t");
    assert_eq!(err("(string=? \"a\" 1)"), "1:15: type error: string=? expects string arguments");
    assert_eq!(err("(string<? \"a\")"), "1:2: string<?: expected exactly 2 arguments");
}

#[test]
fn strings_and_character_lists() {
    assert_eq!(ok("(string->list \"abc\")"), "(#\\a #\\b #\\c)");
    assert_eq!(ok("(string->list \"\")"), "()");
    assert_eq!(ok("(list->string (list #\\h #\\i))"), "\"hi\"");
    assert_eq!(ok("(list->string '())"), "\"\"");
    assert_eq!(err("(list->string '(#\\a 1))"), "1:15: type error: list->string expects a list of characters");
    assert_eq!(err("(list->string 5)"), "1:15: type error: list->string expects list arguments");
    assert_eq!(ok("(string #\\a #\\b)"), "\"ab\"");
    assert_eq!(ok("(string)"), "\"\"");
    assert_eq!(err("(string #\\a 2)"), "1:13: type error: string expects character arguments");
    assert_eq!(ok("(define s (list->string (string->list \"xy\"))) (string-set! s 0 #\\z) s"), "\"zy\"");
}

#[test]
fn integer_and_procedure_predicates() {
    assert_eq!(ok("(integer? 5)"), "#t");
    assert_eq!(ok("(integer? \"5\")"), "#f");
    assert_eq!(ok("(procedure? car)"), "#t");
    assert_eq!(ok("(procedure? (lambda () 1))"), "#t");
    assert_eq!(ok("(procedure? 'car)"), "#f");
}

#[test]
fn set_rebinds_the_nearest_binding() {
    assert_eq!(ok("(define x 1) (set! x 5) x"), "5");
    assert_eq!(ok("(define (make) (define n 0) (lambda () (set! n (+ n 1)) n)) (define c (make)) (c) (c)"), "2");
    assert_eq!(ok("(define x 1) (define (f) (set! x 2)) (f) x"), "2");
    assert_eq!(ok("(define x 1) (let ((x 5)) (set! x 9)) x"), "1");
    assert_eq!(ok("(define x 1) (set! x 2)"), "#<void>");
    assert_eq!(err("(set! y 1)"), "1:7: unbound variable: y");
    assert_eq!(err("(set! 1 2)"), "1:7: syntax error: set! expected a symbol target");
    assert_eq!(err("(set! x)"), "1:2: syntax error: set! expects exactly 2 arguments");
}

#[test]
fn sequential_and_recursive_let() {
    assert_eq!(ok("(let* ((x 1) (y (+ x 1))) (* x y))"), "2");
    assert_eq!(ok("(define x 10) (let* ((x 1) (y x)) y)"), "1");
    assert_eq!(ok("(let* () 5)"), "5");
    assert_eq!(
        ok("(letrec ((ev (lambda (n) (if (= n 0) #t (od (- n 1))))) (od (lambda (n) (if (= n 0) #f (ev (- n 1)))))) (ev 10))"),
        "#t"
    );
    assert_eq!(ok("(letrec ((x y) (y 1)) x)"), "#f");
    assert_eq!(err("(let* x 1)"), "1:7: syntax error: let* bindings must be a list");
    assert_eq!(err("(let*)"), "1:2: syntax error: let* expects bindings and a body");
    assert_eq!(err("(letrec ((1 2)) 1)"), "1:11: syntax error: let binding name must be a symbol");
}

#[test]
fn apply_spreads_its_last_argument() {
    assert_eq!(ok("(apply + 1 2 '(3 4))"), "10");
    assert_eq!(ok("(apply list '())"), "()");
    assert_eq!(ok("(apply (lambda (x y) (- x y)) '(10 3))"), "7");
    assert_eq!(ok("(apply apply (list + (list 1 2)))"), "3");
    assert_eq!(err("(apply +)"), "1:2: apply: expected at least 2 arguments");
    assert_eq!(err("(apply + 1 2)"), "1:12: type error: apply expects a list as its last argument");
    assert_eq!(err("(apply 1 '(2))"), "1:2: attempted to call non-procedure");
}

#[test]
fn map_collects_results_in_order() {
    assert_eq!(ok("(map + '(1 2) '(10 20))"), "(11 22)");
    assert_eq!(ok("(map (lambda (x) (* x x)) '(1 2 3))"), "(1 4 9)");
    assert_eq!(ok("(map car '())"), "()");
    assert_eq!(ok("(map (lambda (p) (apply + p)) '((1 2) (3 4)))"), "(3 7)");
    assert_eq!(ok("(map (lambda (l) (map - l)) '((1 2)))"), "((-1 -2))");
    assert_eq!(err("(map car 5)"), "1:10: type error: map expects list arguments");
    assert_eq!(err("(map + (list 1) (list 1 2))"), "1:17: type error: map expects lists of the same length");
    assert_eq!(err("(map car)"), "1:2: map: expected at least 2 arguments");
}

#[test]
fn for_each_runs_in_order_for_its_effects() {
    assert_eq!(
        eval_str_with_output("(for-each display '(1 2 3))"),
        Ok(("#f".to_string(), "123".to_string()))
    );
    assert_eq!(
        eval_str_with_output("(define n 0) (for-each (lambda (x) (set! n (+ n x))) '(1 2 3)) n"),
        Ok(("6".to_string(), String::new()))
    );
    assert_eq!(err("(for-each display 1)"), "1:19: type error: for-each expects list arguments");
}

#[test]
fn greater_or_equal_chains() {
    assert_eq!(ok("(>= 3 3 1)"), "#t");
    assert_eq!(ok("(>= 3 4)"), "#f");
    assert_eq!(ok("(>= 5)"), "#t");
    assert_eq!(err("(>= 1 'a)"), "1:7: type error: >= expects integer arguments");
}

#[test]
fn case_picks_the_clause_whose_data_match() {
    assert_eq!(ok("(case 3 ((1 2) 'low) ((3 4) 'mid) (else 'high))"), "mid");
    assert_eq!(ok("(case 'b ((a) 1) ((b c) 2))"), "2");
    assert_eq!(ok("(case 9 ((1) 'one))"), "#<void>");
    assert_eq!(ok("(case 9 ((1) 'one) (else 'other))"), "other");
    assert_eq!(ok("(case '() ((()) 'empty) (else 'no))"), "empty");
    assert_eq!(ok("(case \"a\" ((\"a\") 'yes) (else 'no))"), "no");
    assert_eq!(ok("(case #\\a ((#\\a) 'ch))"), "ch");
    assert_eq!(ok("(case #t ((#f) 0) ((#t) 1))"), "1");
    assert_eq!(
        eval_str_with_output("(case (+ 1 1) ((2) (display \"x\") 'two))"),
        Ok(("two".to_string(), "x".to_string()))
    );
}

#[test]
fn case_rejects_malformed_clauses() {
    assert_eq!(err("(case)"), "1:2: syntax error: case requires a key and at least one clause");
    assert_eq!(err("(case 1)"), "1:2: syntax error: case requires at least one clause");
    assert_eq!(err("(case 1 (else 1) ((1) 2))"), "1:10: syntax error: else clause must be last");
    assert_eq!(err("(case 1 (x 1))"), "1:10: syntax error: case datums must be a list");
    assert_eq!(err("(case 1 (5 1))"), "1:10: syntax error: case datums must be a list");
    assert_eq!(err("(case 1 5)"), "1:9: syntax error: case clauses must be lists");
    assert_eq!(err("(case 1 ())"), "1:9: syntax error: case clause cannot be empty");
    assert_eq!(err("(case y ((1) 2))"), "1:7: unbound variable: y");
}

#[test]
fn case_clause_with_no_body_gives_void() {
    assert_eq!(ok("(case 1 ((1)))"), "#<void>");
    assert_eq!(ok("(case 1 (else))"), "#<void>");
}

#[test]
fn error_fails_with_its_arguments_displayed() {
    assert_eq!(err("(error \"bad thing:\" 42 'x \"s\")"), "bad thing: 42 x s");
    assert_eq!(err("(error \"plain\")"), "plain");
    assert_eq!(err("(error)"), "error");
    assert_eq!(err("(error '(1 \"a\") #\\b)"), "(1 a) b");
    assert_eq!(
        eval_str_with_output("(display 1) (error \"stop\") (display 2)"),
        Err(EvalError::Message("stop".to_string()))
    );
}

#[test]
fn do_loops_until_the_test_holds() {
    assert_eq!(ok("(do ((i 0 (+ i 1)) (acc '() (cons i acc))) ((= i 3) acc))"), "(2 1 0)");
    assert_eq!(ok("(do ((i 0 (+ i 1))) ((= i 5)))"), "#<void>");
    assert_eq!(ok("(define v 0) (do ((i 1 (+ i 1))) ((> i 4) v) (set! v (+ v i)))"), "10");
    assert_eq!(ok("(do ((i 0 (+ i 1)) (k 7)) ((= i 2) k))"), "7");
    assert_eq!(ok("(do ((a 1 b) (b 2 a) (n 0 (+ n 1))) ((= n 1) (list a b)))"), "(2 1)");
    assert_eq!(
        eval_str_with_output("(do ((i 0 (+ i 1))) ((= i 3) 'done) (display i))"),
        Ok(("done".to_string(), "012".to_string()))
    );
    assert_eq!(ok("(do ((i 0 (+ i 1))) ((= i 1000) i))"), "1000");
}

#[test]
fn do_uses_one_unit_of_the_limit_per_round() {
    let program = "(do ((i 0 (+ i 1))) ((= i 50) i))";
    assert_eq!(eval_with_step_limit(program, 200), Ok(("50".to_string(), String::new())));
    assert_eq!(
        eval_with_step_limit(program, 40),
        Err(EvalError::StepLimitExceeded { max_steps: 40 })
    );
}

#[test]
fn do_rejects_malformed_forms() {
    assert_eq!(err("(do)"), "1:2: syntax error: do requires bindings and a test clause");
    assert_eq!(err("(do ())"), "1:2: syntax error: do requires a test clause");
    assert_eq!(err("(do 1 (#t))"), "1:5: syntax error: do bindings must be a list");
    assert_eq!(err("(do () 1)"), "1:8: syntax error: do test clause must be a list");
    assert_eq!(err("(do () ())"), "1:8: syntax error: do test clause cannot be empty");
    assert_eq!(err("(do (x) (#t))"), "1:6: syntax error: do bindings must be lists");
    assert_eq!(err("(do ((1 2)) (#t))"), "1:7: syntax error: do binding name must be a symbol");
    assert_eq!(
        err("(do ((x)) (#t))"),
        "1:6: syntax error: each do binding must contain a name, init, and optional step"
    );
}

#[test]
fn char_alphabetic_follows_unicode() {
    assert_eq!(ok("(char-alphabetic? #\\a)"), "#t");
    assert_eq!(ok("(char-alphabetic? #\\Z)"), "#t");
    assert_eq!(ok("(char-alphabetic? (integer->char 233))"), "#t");
    assert_eq!(ok("(char-alphabetic? (integer->char 955))"), "#t");
    assert_eq!(ok("(char-alphabetic? #\\1)"), "#f");
    assert_eq!(ok("(char-alphabetic? #\\space)"), "#f");
    assert_eq!(err("(char-alphabetic? 1)"), "1:19: type error: char-alphabetic? expects character arguments");
}

#[test]
fn integer_to_char_takes_scalar_values() {
    assert_eq!(ok("(integer->char 65)"), "#\\A");
    assert_eq!(ok("(char->integer (integer->char 955))"), "955");
    assert_eq!(ok("(integer->char 4294967362)"), "#\\B");
    assert_eq!(err("(integer->char 55296)"), "1:16: type error: integer->char expects a valid code point");
    assert_eq!(err("(integer->char -1)"), "1:16: type error: integer->char expects a valid code point");
    assert_eq!(err("(integer->char #\\a)"), "1:16: type error: integer->char expects integer arguments");
}

#[test]
fn gcd_of_magnitudes() {
    assert_eq!(ok("(gcd 12 18)"), "6");
    assert_eq!(ok("(gcd -12 18)"), "6");
    assert_eq!(ok("(gcd 0 5)"), "5");
    assert_eq!(ok("(gcd 0 0)"), "0");
    assert_eq!(ok("(gcd 17 5)"), "1");
    assert_eq!(ok("(gcd -9223372036854775808 6)"), "2");
    assert_eq!(err("(gcd 1)"), "1:2: gcd: expected exactly 2 arguments");
    assert_eq!(err("(gcd 1 'a)"), "1:8: type error: gcd expects integer arguments");
}

#[test]
fn composed_accessors() {
    assert_eq!(ok("(cadr '(1 2 3))"), "2");
    assert_eq!(ok("(cddr '(1 2 3))"), "(3)");
    assert_eq!(ok("(caddr '(1 2 3))"), "3");
    assert_eq!(ok("(caar '((1 2) 3))"), "1");
    assert_eq!(ok("(cdar '((1 2) 3))"), "(2)");
    assert_eq!(err("(cadr '(1))"), "1:7: type error: car expects a non-empty list");
    assert_eq!(err("(cddr 5)"), "1:7: type error: cdr expects list arguments");
    assert_eq!(err("(caddr)"), "1:2: caddr: expected exactly 1 argument");
}

#[test]
fn lcm_of_magnitudes() {
    assert_eq!(ok("(lcm 4 6)"), "12");
    assert_eq!(ok("(lcm -4 6)"), "12");
    assert_eq!(ok("(lcm 3 5)"), "15");
    assert_eq!(ok("(lcm 0 5)"), "0");
    assert_eq!(ok("(lcm 0 0)"), "0");
    assert_eq!(err("(lcm 1 2 3)"), "1:2: lcm: expected exactly 2 arguments");
    assert_eq!(err("(lcm #t 2)"), "1:6: type error: lcm expects integer arguments");
}

#[test]
fn string_case_follows_unicode() {
    assert_eq!(ok("(string-upcase \"hello\")"), "\"HELLO\"");
    assert_eq!(ok("(string-downcase \"HeLLo\")"), "\"hello\"");
    assert_eq!(ok("(string-length (string-upcase (list->string (list (integer->char 223)))))"), "2");
    assert_eq!(ok("(define s \"ab\") (define t (string-upcase s)) (string-set! t 0 #\\z) s"), "\"ab\"");
    assert_eq!(err("(string-upcase 1)"), "1:16: type error: string-upcase expects string arguments");
    assert_eq!(err("(string-downcase)"), "1:2: string-downcase: expected exactly 1 argument");
}

#[test]
fn string_ci_equal_compares_lower_case() {
    assert_eq!(ok("(string-ci=? \"Hello\" \"hELLO\")"), "#t");
    assert_eq!(ok("(string-ci=? \"a\" \"b\")"), "#f");
    assert_eq!(err("(string-ci=? \"a\")"), "1:2: string-ci=?: expected exactly 2 arguments");
    assert_eq!(err("(string-ci=? \"a\" 1)"), "1:18: type error: string-ci=? expects string arguments");
}

#[test]
fn make_string_repeats_a_character() {
    assert_eq!(ok("(make-string 3 #\\a)"), "\"aaa\"");
    assert_eq!(ok("(string-length (make-string 4))"), "4");
    assert_eq!(ok("(char->integer (string-ref (make-string 1) 0))"), "0");
    assert_eq!(ok("(make-string 0 #\\a)"), "\"\"");
    assert_eq!(err("(make-string -1)"), "1:14: type error: make-string expects a non-negative length");
    assert_eq!(err("(make-string 2 1)"), "1:16: type error: make-string expects character arguments");
    assert_eq!(err("(make-string)"), "1:2: make-string: expected 1 or 2 arguments");
}

#[test]
fn expt_wraps_like_integer_power() {
    assert_eq!(ok("(expt 2 10)"), "1024");
    assert_eq!(ok("(expt -3 3)"), "-27");
    assert_eq!(ok("(expt 0 0)"), "1");
    assert_eq!(ok("(expt 2 -1)"), "0");
    assert_eq!(ok("(expt 2 63)"), "-9223372036854775808");
    assert_eq!(ok("(expt 2 64)"), "0");
    assert_eq!(ok("(expt 3 4294967296)"), "1");
    assert_eq!(err("(expt 2)"), "1:2: expt: expected exactly 2 arguments");
    assert_eq!(err("(expt 2 #t)"), "1:9: type error: expt expects integer arguments");
}

#[test]
fn string_list_round_trip_and_list_laws() {
    assert_eq!(ok("(list->string (string->list \"hello\"))"), "\"hello\"");
    assert_eq!(ok("(list->string (string->list \"\"))"), "\"\"");
    assert_eq!(ok("(reverse (reverse '(1 (2 3) \"x\")))"), "(1 (2 3) \"x\")");
    assert_eq!(ok("(reverse '())"), "()");
    assert_eq!(ok("(append '(1 2) '(3))"), "(1 2 3)");
    assert_eq!(ok("(append '() '(3))"), "(3)");
}

#[test]
fn letrec_star_binds_in_turn() {
    assert_eq!(ok("(letrec* ((a 1) (b (+ a 1))) b)"), "2");
    assert_eq!(
        ok("(letrec* ((ev (lambda (n) (if (= n 0) #t (od (- n 1))))) (od (lambda (n) (if (= n 0) #f (ev (- n 1)))))) (od 3))"),
        "#t"
    );
    assert_eq!(err("(letrec* x 1)"), "1:10: syntax error: letrec* bindings must be a list");
    assert_eq!(err("(letrec*)"), "1:2: syntax error: letrec* expects bindings and a body");
}

#[test]
fn rest_parameters_collect_the_remaining_arguments() {
    assert_eq!(ok("((lambda (a . rest) rest) 1 2 3)"), "(2 3)");
    assert_eq!(ok("((lambda (a . rest) rest) 1)"), "()");
    assert_eq!(ok("((lambda (. all) all) 1 2)"), "(1 2)");
    assert_eq!(ok("(define (f x . ys) (list x ys)) (f 1 2 3)"), "(1 (2 3))");
    assert_eq!(ok("(apply (lambda (a . r) r) 1 '(2 3))"), "(2 3)");
    assert_eq!(ok("(map (lambda (x . r) (length r)) '(1 2) '(3 4))"), "(1 1)");
    assert_eq!(err("((lambda (a b . r) a) 1)"), "1:2: lambda: expected at least 2 arguments");
    assert_eq!(err("(lambda (a .) a)"), "1:12: syntax error: rest parameter requires a name");
    assert_eq!(err("(lambda (a . b c) a)"), "1:12: syntax error: rest parameter must be last");
    assert_eq!(err("(lambda (a . 1) a)"), "1:14: syntax error: parameters must be symbols");
    assert_eq!(err("(lambda (a . .) a)"), "1:14: syntax error: parameters must be symbols");
}
