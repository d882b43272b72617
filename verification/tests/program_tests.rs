use rispyboi::environment::{Environment, MacroEnvironment};
use rispyboi::error::RispyError;
use rispyboi::eval::{
    create_global_environment, create_global_environment_with_macros, eval, eval_with_depth, eval_with_macros, MAX_EVAL_DEPTH,
};
use rispyboi::macros::MacroExpander;
use rispyboi::number::{Arithmetic, Number, Text};
use rispyboi::parser::parse_single;
use rispyboi::program::{execute_program, execute_repl_input, repl_line, ReplOutcome};
use rispyboi::value::{Function, MacroFunction, UserFunction, Value};

struct Host;

fn to_f64(n: Number) -> f64 {
    f64::from_bits(n.bits)
}

fn from_f64(x: f64) -> Number {
    Number { bits: x.to_bits() }
}

impl Arithmetic for Host {
    fn spec_read(&self, _text: Text) -> Option<Number> {
        unreachable!()
    }

    fn spec_sum(&self, a: Number, b: Number) -> Number {
        self.sum(a, b)
    }

    fn spec_difference(&self, a: Number, b: Number) -> Number {
        self.difference(a, b)
    }

    fn spec_product(&self, a: Number, b: Number) -> Number {
        self.product(a, b)
    }

    fn spec_quotient(&self, a: Number, b: Number) -> Number {
        self.quotient(a, b)
    }

    fn spec_render(&self, _n: Number) -> Text {
        unreachable!()
    }

    fn read_decimal(&self, text: &str) -> Option<Number> {
        text.parse::<f64>().ok().map(from_f64)
    }

    fn sum(&self, a: Number, b: Number) -> Number {
        from_f64(to_f64(a) + to_f64(b))
    }

    fn difference(&self, a: Number, b: Number) -> Number {
        from_f64(to_f64(a) - to_f64(b))
    }

    fn product(&self, a: Number, b: Number) -> Number {
        from_f64(to_f64(a) * to_f64(b))
    }

    fn quotient(&self, a: Number, b: Number) -> Number {
        from_f64(to_f64(a) / to_f64(b))
    }

    fn render(&self, n: Number) -> String {
        format!("{}", to_f64(n))
    }
}

fn num(x: f64) -> Value {
    Value::Number(from_f64(x))
}

fn read(source: &str) -> Value {
    parse_single(source, &Host).unwrap()
}

fn run(source: &str, env: &mut Environment) -> Result<Value, RispyError> {
    let mut out = Vec::new();
    eval(&read(source), env, &Host, &mut out)
}

fn program(source: &str) -> (Result<(), RispyError>, Vec<String>) {
    let mut out = Vec::new();
    let r = execute_program(source, &Host, &mut out);
    (r, out)
}

#[test]
fn program_prints_each_result_after_its_output() {
    let (r, out) = program("(define x 2) (print (+ x 1)) (* x 10) '(a \"b\")");
    assert!(r.is_ok());
    assert_eq!(out, vec!["nil", "3", "nil", "20", "(a \"b\")"]);
}

#[test]
fn program_stops_at_the_first_error() {
    let (r, out) = program("1 (car '()) 3");
    assert_eq!(r.unwrap_err().message(), "Runtime error: car: cannot get car of empty list");
    assert_eq!(out, vec!["1"]);
    let (r, out) = program("(+ 1");
    assert_eq!(r.unwrap_err().message(), "Parse error: Expected ')' after list elements");
    assert!(out.is_empty());
    let (r, _) = program("\"open");
    assert_eq!(r.unwrap_err().message(), "Lexer error: Unterminated string literal");
}

#[test]
fn repl_input_keeps_state_between_lines() {
    let (mut env, mut mx) = create_global_environment_with_macros();
    let mut out = Vec::new();
    execute_repl_input("(define-macro unless (c a b) (if c b a))", &mut env, &mut mx, &Host, &mut out).unwrap();
    execute_repl_input("(define n 5)", &mut env, &mut mx, &Host, &mut out).unwrap();
    execute_repl_input("(unless (< n 3) 'big 'small)", &mut env, &mut mx, &Host, &mut out).unwrap();
    assert_eq!(out, vec!["nil", "nil", "big"]);
}

#[test]
fn quote_returns_its_argument_unevaluated() {
    let mut env = create_global_environment();
    assert_eq!(run("(quote (+ undefined 1))", &mut env).unwrap(), read("(+ undefined 1)"));
}

#[test]
fn if_evaluates_only_the_selected_branch() {
    let mut env = create_global_environment();
    assert_eq!(run("(if nil (undefined) 2)", &mut env).unwrap(), num(2.0));
    assert_eq!(run("(if #f (undefined) 3)", &mut env).unwrap(), num(3.0));
    assert_eq!(run("(if 0 4 (undefined))", &mut env).unwrap(), num(4.0));
    assert_eq!(run("(if '() 5 (undefined))", &mut env).unwrap(), num(5.0));
    assert_eq!(
        run("(if (car '()) 1 2)", &mut env).unwrap_err().message(),
        "Runtime error: car: cannot get car of empty list"
    );
}

#[test]
fn define_then_lookup() {
    let mut env = create_global_environment();
    assert_eq!(run("(define answer (* 6 7))", &mut env).unwrap(), Value::Nil);
    assert_eq!(run("answer", &mut env).unwrap(), num(42.0));
    assert_eq!(env.get("answer"), Some(num(42.0)));
}

#[test]
fn set_returns_the_value_and_rebinds() {
    let mut env = create_global_environment();
    assert_eq!(run("(set! fresh 7)", &mut env).unwrap(), num(7.0));
    assert_eq!(run("fresh", &mut env).unwrap(), num(7.0));
    run("(define-function bump () (set! fresh (+ fresh 1)))", &mut env).unwrap();
    assert_eq!(run("(bump)", &mut env).unwrap(), num(8.0));
    assert_eq!(run("fresh", &mut env).unwrap(), num(8.0));
}

#[test]
fn calls_bind_parameters_in_a_scope_that_is_closed_afterwards() {
    let mut env = create_global_environment();
    run("(define x 1)", &mut env).unwrap();
    run("(define-function f (x) (define inner x))", &mut env).unwrap();
    assert_eq!(run("(f 9)", &mut env).unwrap(), Value::Nil);
    assert_eq!(run("x", &mut env).unwrap(), num(1.0));
    assert_eq!(
        run("inner", &mut env).unwrap_err().message(),
        "Undefined symbol: Undefined variable: inner"
    );
    assert_eq!(env.current_scope(), 0);
    // A function sees the variables of the scope it was defined in, not its caller's.
    run("(define-function g () y)", &mut env).unwrap();
    run("(define-function h (y) (g))", &mut env).unwrap();
    assert_eq!(run("(h 5)", &mut env).unwrap_err().message(), "Undefined symbol: Undefined variable: y");
    run("(define-function fx () x)", &mut env).unwrap();
    run("(define-function gx (x) (fx))", &mut env).unwrap();
    assert_eq!(run("(gx 2)", &mut env).unwrap(), num(1.0));
    assert_eq!(env.current_scope(), 0);
}

#[test]
fn evaluation_errors() {
    let mut env = create_global_environment();
    run("(define-function two (a b) a)", &mut env).unwrap();
    assert_eq!(
        run("(two 1)", &mut env).unwrap_err().message(),
        "Arity error: Function two expects 2 arguments, got 1"
    );
    assert_eq!(run("(nope 1)", &mut env).unwrap_err().message(), "Undefined symbol: Undefined function: nope");
    assert_eq!(
        run("(\"s\" 1)", &mut env).unwrap_err().message(),
        "Type error: First element of list must be a function or symbol"
    );
    run("(define five 5)", &mut env).unwrap();
    assert_eq!(run("(five)", &mut env).unwrap_err().message(), "Type error: Value is not a function");
    assert_eq!(
        run("(define 1 2)", &mut env).unwrap_err().message(),
        "Type error: define: first argument must be a symbol"
    );
    assert_eq!(
        run("(set! x)", &mut env).unwrap_err().message(),
        "Arity error: set! expects exactly 2 arguments (name value)"
    );
    assert_eq!(
        run("(define-function f x 1)", &mut env).unwrap_err().message(),
        "Type error: define-function: second argument must be a list of parameters"
    );
    assert_eq!(
        run("(define-macro m (1) 1)", &mut env).unwrap_err().message(),
        "Type error: define-macro: parameters must be symbols"
    );
}

#[test]
fn applying_values_that_are_functions() {
    let mut env = create_global_environment();
    let plus = env.get("+").unwrap();
    let expr = Value::List(vec![plus, num(1.0), num(2.0)]);
    let mut out = Vec::new();
    assert_eq!(eval(&expr, &mut env, &Host, &mut out).unwrap(), num(3.0));
    let m = Value::Function(Box::new(Function::Macro(Box::new(MacroFunction {
        name: "m".to_string(),
        params: vec![],
        body: Box::new(Value::Nil),
    }))));
    let call = Value::List(vec![m]);
    assert_eq!(
        eval(&call, &mut env, &Host, &mut out).unwrap_err().message(),
        "Runtime error: Macros not yet implemented"
    );
}

#[test]
fn print_goes_to_the_output() {
    let mut env = create_global_environment();
    let mut out = vec!["before".to_string()];
    let r = eval(&read("(print (cons 1 '(\"two\" #t)))"), &mut env, &Host, &mut out).unwrap();
    assert_eq!(r, Value::Nil);
    assert_eq!(out, vec!["before", "(1 \"two\" #t)"]);
}

#[test]
fn runaway_recursion_stops_with_an_error() {
    assert_eq!(MAX_EVAL_DEPTH, 100_000);
    let mut env = create_global_environment();
    run("(define-function forever (n) (forever n))", &mut env).unwrap();
    let mut mx = MacroExpander::new(MacroEnvironment::new());
    let mut out = Vec::new();
    assert_eq!(
        eval_with_depth(&read("(forever 1)"), &mut env, &mut mx, &Host, &mut out, 50).unwrap_err().message(),
        "Runtime error: Maximum evaluation depth exceeded"
    );
    assert_eq!(eval_with_depth(&read("(+ 1 2)"), &mut env, &mut mx, &Host, &mut out, 2).unwrap(), num(3.0));
    assert_eq!(
        eval_with_depth(&read("(+ 1 (+ 2 3))"), &mut env, &mut mx, &Host, &mut out, 2).unwrap_err().message(),
        "Runtime error: Maximum evaluation depth exceeded"
    );
    assert_eq!(env.current_scope(), 0);
    run("(define-function count (n) (if (= n 0) 'done (count (- n 1))))", &mut env).unwrap();
    assert_eq!(run("(count 100)", &mut env).unwrap(), read("done"));
}

#[test]
fn expansion_errors_leave_everything_unchanged() {
    let mut env = create_global_environment();
    let mut mx = MacroExpander::new(MacroEnvironment::new());
    let mut out = Vec::new();
    eval_with_macros(&read("(define-macro grow (x) (quasiquote (grow (s (unquote x)))))"), &mut env, &mut mx, &Host, &mut out).unwrap();
    let r = eval_with_macros(&read("(grow 0)"), &mut env, &mut mx, &Host, &mut out);
    assert_eq!(
        r.unwrap_err().message(),
        "Runtime error: Macro expansion exceeded maximum iterations (possible infinite loop)"
    );
    assert!(out.is_empty());
    assert_eq!(env.current_scope(), 0);
}

#[test]
fn global_environment_binds_the_primitives() {
    let env = create_global_environment();
    for name in ["+", "-", "*", "/", "=", "<", "car", "cdr", "cons", "atom?", "null?", "print"] {
        match env.get(name) {
            Some(Value::Function(f)) => assert_eq!(f.name(), name),
            _ => panic!("missing {}", name),
        }
    }
    assert_eq!(env.get("length"), None);
    assert_eq!(env.current_scope(), 0);
}

#[test]
fn repl_lines_quit_skip_and_run() {
    let (mut env, mut mx) = create_global_environment_with_macros();
    let mut out = Vec::new();
    assert!(matches!(repl_line("exit", &mut env, &mut mx, &Host, &mut out), ReplOutcome::Quit));
    assert!(matches!(repl_line("  quit \n", &mut env, &mut mx, &Host, &mut out), ReplOutcome::Quit));
    assert!(matches!(repl_line("\u{a0}exit\t", &mut env, &mut mx, &Host, &mut out), ReplOutcome::Quit));
    assert!(matches!(repl_line(" \t\n", &mut env, &mut mx, &Host, &mut out), ReplOutcome::Continue(Ok(()))));
    assert!(out.is_empty());
    assert!(matches!(
        repl_line("(define x 4) (+ x 1)\n", &mut env, &mut mx, &Host, &mut out),
        ReplOutcome::Continue(Ok(()))
    ));
    assert_eq!(out, vec!["nil", "5"]);
    match repl_line("(car '())", &mut env, &mut mx, &Host, &mut out) {
        ReplOutcome::Continue(Err(e)) => assert_eq!(e.message(), "Runtime error: car: cannot get car of empty list"),
        _ => panic!("expected an error"),
    }
    // The session goes on after an error, with its variables.
    assert!(matches!(repl_line("x", &mut env, &mut mx, &Host, &mut out), ReplOutcome::Continue(Ok(()))));
    assert_eq!(out, vec!["nil", "5", "4"]);
    // "exit" inside a longer line is just a symbol.
    match repl_line("exit now", &mut env, &mut mx, &Host, &mut out) {
        ReplOutcome::Continue(Err(e)) => assert_eq!(e.message(), "Undefined symbol: Undefined variable: exit"),
        _ => panic!("expected an error"),
    }
}

#[test]
fn functions_compare_without_their_scope() {
    let f = |closure: usize| UserFunction {
        name: Some("f".to_string()),
        params: vec!["x".to_string()],
        body: Box::new(Value::Symbol("x".to_string())),
        closure,
    };
    assert_eq!(f(0), f(3));
    assert_eq!(f(2).clone(), f(2));
    let mut g = f(0);
    g.params.push("y".to_string());
    assert_ne!(f(0), g);
}
