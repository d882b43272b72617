# rispyboi

A small Lisp interpreter whose core is verified with Verus.

## Layout

- `src/` — the verified library.
  - `text.rs`: character and string helpers, decimal numerals.
  - `error.rs`: the error kinds and their reports.
  - `number.rs`: numbers held as IEEE-754 bit patterns, with equality and
    ordering proved from the encoding; the `Arithmetic` trait through which the
    host reads, computes and prints floating-point numbers.
  - `value.rs`: values, their mathematical views, list operations, printing,
    equality, arity checks.
  - `environment.rs`: a tree of scopes for variables (each function call opens
    a scope under the scope the function was defined in), and chains of
    scopes for macros.
  - `lexer.rs`, `parser.rs`: text to tokens to expressions, each against a
    specification of the whole language of tokens and expressions.
  - `macros.rs`: template expansion (quasiquote, unquote, splicing) and
    expansion to a fixed point.
  - `builtins.rs`: the twelve primitive functions.
  - `eval.rs`: the evaluator, specified by a mathematical evaluator
    (`spec_eval`) over the host's arithmetic, and the laws of evaluation.
  - `program.rs`: running a whole text, as the command line and the
    interactive loop do, and what the interactive loop does with each line
    (`repl_line`: stop on `exit` or `quit`, skip blank lines, otherwise run
    the line and go on, after an error too).
- `tests/` — tests of the library, with a floating-point host for the numbers.
- `app/` — the command-line program: reading files and lines, printing, and
  the floating-point host.

## Numbers

Verus does not reason about floating point, so the interpreter leaves the
floating-point work to its host through the `Arithmetic` trait. Each of the
trait's operations is a function of its arguments, named by a spec function
(`spec_read`, `spec_sum`, ..., `spec_render`), and the specifications of the
lexer, the primitives, printing and evaluation are stated over those names.

## Evaluation depth

Evaluation nests at most `MAX_EVAL_DEPTH` levels (`eval_with_depth` takes
another bound); deeper evaluation ends with the error "Maximum evaluation
depth exceeded". The command-line program evaluates on a thread with a large
stack so that this bound is reached before the stack runs out.
