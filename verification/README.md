# ming

A small Scheme interpreter written in Verus: a reader for Scheme source text,
an evaluator for a core of the language (`define`, `set!`, `lambda` with
rest parameters written `(a b . rest)`, `if`, `let`, named `let`, `let*`,
`letrec`, `letrec*`, `cond`, `case`, `do`, `and`, `or`, `begin`, `quote`, and
the primitive procedures on integers, booleans, characters, strings, symbols
and lists, among them `apply`, `map` and `for-each`), and the rendering of
the values it produces.

`ming::scheme::eval_str` evaluates a program and returns the written form of
the value of its last expression; `eval_str_with_output` also returns what
the program wrote with `display`, `write` and `newline`. Evaluation is
bounded by `DEFAULT_MAX_STEPS` levels of nesting; a program that needs more
fails with `StepLimitExceeded`, and `eval_with_step_limit` takes another
bound.

## What the language leaves out

- First-class continuations (`call/cc`), `dynamic-wind` and exception
  handlers (`guard`, `raise`, `with-exception-handler`): the evaluator is a
  recursive one over the program, not a machine with explicit continuation
  frames.
- Macros (`define-syntax`, `syntax-rules`) and `define-record-type`.
- Vectors, mutable pairs (`set-car!`, `set-cdr!`) and improper lists; a list
  is a sequence of values.
- Numbers other than 64-bit integers (arithmetic wraps at the bounds), and
  with them `truncate`, `round` and the exactness conversions.
- `quasiquote`, `case-lambda`, and a bare symbol as a whole parameter list.

## Layout

- `src/scheme/parser.rs`: the reader, specified by `read_program`.
- `src/scheme/semantics.rs`: what evaluation does, as spec functions over
  the interpreter's state; `src/scheme/interpreter.rs` and
  `src/scheme/builtins.rs` implement it and are proved against it.
- `src/scheme/env.rs`, `value.rs`, `expr.rs`: environments (frames in an
  arena), values (strings as handles into a shared store, so `string-set!`
  is seen through every reference) and expressions, each with its view.
- `src/scheme/environment.rs`: environments as handles to frames, with
  `define`, `lookup` and `set` on them.
- `src/scheme/equality.rs`: `eq?`, `eqv?` and `equal?`.
- `src/scheme/roundtrip.rs`: what reading and then evaluating a literal or a
  primitive's name gives back.
- `src/scheme/budget.rs`: evaluation is bounded by a budget of nested eval
  dispatches; a result reached within a budget stays the same with any
  larger one.
- `src/scheme/bridge.rs`: decoding the length-prefixed replies of an
  evaluator that runs as a separate process.
- `app/`: the command-line runner and the process side of the bridge.
