use rispyboi::builtins::apply_builtin;
use rispyboi::environment::{Environment, MacroEnvironment};
use rispyboi::error::RispyError;
use rispyboi::eval::{create_global_environment, eval};
use rispyboi::macros::MacroExpander;
use rispyboi::number::{Arithmetic, Number, Text};
use rispyboi::parser::parse_single;
use rispyboi::text::decimal_string;
use rispyboi::value::{MacroFunction, Value};

struct Host;

fn to_f64(n: Number) -> f64 {
    f64::from_bits(n.bits)
}

fn from_f64(x: f64) -> Number {
    Number { bits: x.to_bits() }
}

impl Arithmetic for Host {
    fn spec_read(&self, _text: Text) -> Option<Number> {
        unreachable!()
    }

    fn spec_sum(&self, a: Number, b: Number) -> Number {
        self.sum(a, b)
    }

    fn spec_difference(&self, a: Number, b: Number) -> Number {
        self.difference(a, b)
    }

    fn spec_product(&self, a: Number, b: Number) -> Number {
        self.product(a, b)
    }

    fn spec_quotient(&self, a: Number, b: Number) -> Number {
        self.quotient(a, b)
    }

    fn spec_render(&self, _n: Number) -> Text {
        unreachable!()
    }

    fn read_decimal(&self, text: &str) -> Option<Number> {
        text.parse::<f64>().ok().map(from_f64)
    }

    fn sum(&self, a: Number, b: Number) -> Number {
        from_f64(to_f64(a) + to_f64(b))
    }

    fn difference(&self, a: Number, b: Number) -> Number {
        from_f64(to_f64(a) - to_f64(b))
    }

    fn product(&self, a: Number, b: Number) -> Number {
        from_f64(to_f64(a) * to_f64(b))
    }

    fn quotient(&self, a: Number, b: Number) -> Number {
        from_f64(to_f64(a) / to_f64(b))
    }

    fn render(&self, n: Number) -> String {
        format!("{}", to_f64(n))
    }
}

fn num(x: f64) -> Value {
    Value::Number(from_f64(x))
}

fn read(source: &str) -> Value {
    parse_single(source, &Host).unwrap()
}

fn run(source: &str, env: &mut Environment) -> Result<Value, RispyError> {
    let mut out = Vec::new();
    eval(&read(source), env, &Host, &mut out)
}

fn call(name: &str, args: Vec<Value>) -> Value {
    let mut out = Vec::new();
    apply_builtin(name, &args, &Host, &mut out).unwrap()
}

#[test]
fn equality_is_symmetric() {
    let pairs = vec![
        (read("(1 (2 \"x\"))"), read("(1 (2 \"x\"))")),
        (read("(1 2)"), read("(1 3)")),
        (Value::Nil, read("()")),
        (num(0.0), num(-0.0)),
    ];
    for (a, b) in pairs {
        assert_eq!(call("=", vec![a.clone(), b.clone()]), call("=", vec![b, a]));
    }
}

#[test]
fn car_and_cdr_undo_cons() {
    let x = read("(a b)");
    let tail = read("(c d)");
    let pair = call("cons", vec![x.clone(), tail.clone()]);
    assert_eq!(call("car", vec![pair.clone()]), x);
    assert_eq!(call("cdr", vec![pair]), tail);
    let single = call("cons", vec![num(1.0), Value::Nil]);
    assert_eq!(call("car", vec![single.clone()]), num(1.0));
    assert_eq!(call("cdr", vec![single]), Value::List(vec![]));
}

#[test]
fn expansion_is_a_fixed_point() {
    let mut expander = MacroExpander::new(MacroEnvironment::new());
    expander.define_macro(
        "inc".to_string(),
        MacroFunction {
            name: "inc".to_string(),
            params: vec!["x".to_string()],
            body: Box::new(read("(quasiquote (+ (unquote x) 1))")),
        },
    );
    let expanded = expander.expand(&read("(inc (inc 1))")).unwrap();
    assert_eq!(expanded, read("(+ (+ 1 1) 1)"));
    assert_eq!(expander.expand_once(&expanded).unwrap(), expanded);
}

#[test]
fn decimal_numerals() {
    assert_eq!(decimal_string(0), "0");
    assert_eq!(decimal_string(907), "907");
    assert_eq!(decimal_string(u64::MAX), "18446744073709551615");
    assert_ne!(decimal_string(10), decimal_string(1));
}

#[test]
fn printed_strings_read_back() {
    for s in ["", "plain", "q\"uote", "back\\slash", "line\nbreak\ttab\rret"] {
        let v = Value::String(s.to_string());
        let printed = v.display(&Host);
        assert_eq!(parse_single(&printed, &Host).unwrap(), v);
    }
}

#[test]
fn arguments_are_evaluated_before_the_function_is_found() {
    let mut env = create_global_environment();
    assert_eq!(
        run("(no-such-function (car '()))", &mut env).unwrap_err().message(),
        "Runtime error: car: cannot get car of empty list"
    );
    assert_eq!(
        run("(no-such-function 1)", &mut env).unwrap_err().message(),
        "Undefined symbol: Undefined function: no-such-function"
    );
}

#[test]
fn evaluation_keeps_the_number_of_scopes() {
    let mut env = create_global_environment();
    run("(define-function deep (n) (if (= n 0) (car '()) (deep (- n 1))))", &mut env).unwrap();
    assert!(run("(deep 5)", &mut env).is_err());
    assert_eq!(env.current_scope(), 0);
    let mut nested = Environment::with_parent(create_global_environment());
    run("(define-function down (n) (if (= n 0) (car '()) (down (- n 1))))", &mut nested).unwrap();
    assert_eq!(
        run("(down 3)", &mut nested).unwrap_err().message(),
        "Runtime error: car: cannot get car of empty list"
    );
    assert_eq!(nested.current_scope(), 1);
}

#[test]
fn self_evaluating_values() {
    let mut env = Environment::new();
    for v in [Value::Nil, Value::Bool(false), num(2.5), Value::String("s".to_string()), Value::List(vec![])] {
        let mut out = Vec::new();
        assert_eq!(eval(&v, &mut env, &Host, &mut out).unwrap(), v);
    }
}
