use rispyboi::environment::Environment;
use rispyboi::number::{Arithmetic, Number, Text};
use rispyboi::value::{
    check_arity, escape_string, is_atom, is_bool, is_list, is_nil, is_number, is_string, is_symbol,
    is_truthy, Arity, Function, UserFunction, Value,
};

struct Host;

fn to_f64(n: Number) -> f64 {
    f64::from_bits(n.bits)
}

fn from_f64(x: f64) -> Number {
    Number { bits: x.to_bits() }
}

impl Arithmetic for Host {
    fn spec_read(&self, _text: Text) -> Option<Number> {
        unreachable!()
    }

    fn spec_sum(&self, a: Number, b: Number) -> Number {
        self.sum(a, b)
    }

    fn spec_difference(&self, a: Number, b: Number) -> Number {
        self.difference(a, b)
    }

    fn spec_product(&self, a: Number, b: Number) -> Number {
        self.product(a, b)
    }

    fn spec_quotient(&self, a: Number, b: Number) -> Number {
        self.quotient(a, b)
    }

    fn spec_render(&self, _n: Number) -> Text {
        unreachable!()
    }

    fn read_decimal(&self, text: &str) -> Option<Number> {
        text.parse::<f64>().ok().map(from_f64)
    }

    fn sum(&self, a: Number, b: Number) -> Number {
        from_f64(to_f64(a) + to_f64(b))
    }

    fn difference(&self, a: Number, b: Number) -> Number {
        from_f64(to_f64(a) - to_f64(b))
    }

    fn product(&self, a: Number, b: Number) -> Number {
        from_f64(to_f64(a) * to_f64(b))
    }

    fn quotient(&self, a: Number, b: Number) -> Number {
        from_f64(to_f64(a) / to_f64(b))
    }

    fn render(&self, n: Number) -> String {
        format!("{}", to_f64(n))
    }
}

fn num(x: f64) -> Value {
    Value::Number(from_f64(x))
}

fn show(v: &Value) -> String {
    v.display(&Host)
}

#[test]
fn test_value_constructors() {
    assert_eq!(Value::nil(), Value::Nil);
    assert_eq!(Value::bool(true), Value::Bool(true));
    assert_eq!(Value::number(from_f64(42.0)), num(42.0));
    assert_eq!(Value::string("hello"), Value::String("hello".to_string()));
    assert_eq!(Value::symbol("foo"), Value::Symbol("foo".to_string()));
    assert_eq!(
        Value::list(vec![Value::number(from_f64(1.0)), Value::number(from_f64(2.0))]),
        Value::List(vec![num(1.0), num(2.0)])
    );
}

#[test]
fn test_type_predicates() {
    assert!(is_nil(&Value::Nil));
    assert!(is_bool(&Value::Bool(true)));
    assert!(is_number(&num(42.0)));
    assert!(is_string(&Value::String("hello".to_string())));
    assert!(is_symbol(&Value::Symbol("foo".to_string())));
    assert!(is_list(&Value::List(vec![])));

    assert!(is_atom(&num(42.0)));
    assert!(!is_atom(&Value::List(vec![])));
}

#[test]
fn test_truthiness() {
    assert!(!is_truthy(&Value::Nil));
    assert!(!is_truthy(&Value::Bool(false)));
    assert!(is_truthy(&Value::Bool(true)));
    assert!(is_truthy(&num(0.0)));
    assert!(is_truthy(&Value::String("".to_string())));
    assert!(is_truthy(&Value::List(vec![])));
}

#[test]
fn test_list_operations() {
    let list = Value::list(vec![num(1.0), num(2.0), num(3.0)]);

    assert_eq!(list.car().unwrap(), &num(1.0));
    assert_eq!(list.cdr().unwrap(), Value::List(vec![num(2.0), num(3.0)]));
    assert_eq!(list.length().unwrap(), 3);
    assert!(!list.is_empty_list());

    let empty_list = Value::list(vec![]);
    assert!(empty_list.is_empty_list());
    assert_eq!(empty_list.length().unwrap(), 0);
    assert!(empty_list.car().is_err());
    assert!(empty_list.cdr().is_err());
}

#[test]
fn test_cons() {
    let value = num(1.0);
    let tail = Value::list(vec![num(2.0), num(3.0)]);
    let result = value.cons(tail);

    assert_eq!(result, Value::List(vec![num(1.0), num(2.0), num(3.0)]));

    let value2 = num(1.0);
    let nil_tail = Value::Nil;
    let result2 = value2.cons(nil_tail);
    assert_eq!(result2, Value::List(vec![num(1.0)]));
}

#[test]
fn test_expect_methods() {
    let number = num(42.0);
    assert_eq!(to_f64(number.expect_number().unwrap()), 42.0);
    assert!(number.expect_string().is_err());

    let string = Value::string("hello");
    assert_eq!(string.expect_string().unwrap(), "hello");
    assert!(string.expect_number().is_err());

    let symbol = Value::symbol("foo");
    assert_eq!(symbol.expect_symbol().unwrap(), "foo");
    assert!(symbol.expect_list().is_err());

    let list = Value::list(vec![num(1.0)]);
    assert_eq!(list.expect_list().unwrap(), &[num(1.0)]);
    assert!(list.expect_symbol().is_err());
}

#[test]
fn test_type_names() {
    assert_eq!(Value::Nil.type_label(), "nil");
    assert_eq!(Value::Bool(true).type_label(), "boolean");
    assert_eq!(num(42.0).type_label(), "number");
    assert_eq!(Value::String("hello".to_string()).type_label(), "string");
    assert_eq!(Value::Symbol("foo".to_string()).type_label(), "symbol");
    assert_eq!(Value::List(vec![]).type_label(), "list");
}

#[test]
fn test_display_formatting() {
    assert_eq!(show(&Value::Nil), "nil");
    assert_eq!(show(&Value::Bool(true)), "#t");
    assert_eq!(show(&Value::Bool(false)), "#f");
    assert_eq!(show(&num(42.0)), "42");
    assert_eq!(show(&num(3.14)), "3.14");
    assert_eq!(show(&Value::String("hello".to_string())), "\"hello\"");
    assert_eq!(show(&Value::Symbol("foo".to_string())), "foo");
    assert_eq!(show(&Value::List(vec![num(1.0), num(2.0)])), "(1 2)");
    assert_eq!(show(&Value::List(vec![])), "()");
}

#[test]
fn test_string_escaping() {
    let value = Value::String("hello\nworld\t\"quoted\"\\backslash".to_string());
    assert_eq!(show(&value), "\"hello\\nworld\\t\\\"quoted\\\"\\\\backslash\"");
}

#[test]
fn test_arity_checking() {
    assert!(check_arity(&[], &Arity::Exact(0)).is_ok());
    assert!(check_arity(&[Value::Nil], &Arity::Exact(1)).is_ok());
    assert!(check_arity(&[Value::Nil], &Arity::Exact(0)).is_err());

    assert!(check_arity(&[Value::Nil, Value::Nil], &Arity::AtLeast(2)).is_ok());
    assert!(check_arity(&[Value::Nil, Value::Nil, Value::Nil], &Arity::AtLeast(2)).is_ok());
    assert!(check_arity(&[Value::Nil], &Arity::AtLeast(2)).is_err());

    assert!(check_arity(&[Value::Nil], &Arity::Range(1, 3)).is_ok());
    assert!(check_arity(&[Value::Nil, Value::Nil], &Arity::Range(1, 3)).is_ok());
    assert!(check_arity(&[], &Arity::Range(1, 3)).is_err());
    assert!(check_arity(&[Value::Nil, Value::Nil, Value::Nil, Value::Nil], &Arity::Range(1, 3)).is_err());

    assert!(check_arity(&[], &Arity::Variadic).is_ok());
    let many_nils: Vec<Value> = (0..100).map(|_| Value::Nil).collect();
    assert!(check_arity(&many_nils, &Arity::Variadic).is_ok());
}

#[test]
fn test_environment() {
    let mut env = Environment::new();
    env.define("x".to_string(), num(42.0));

    assert_eq!(env.get("x"), Some(num(42.0)));
    assert_eq!(env.get("y"), None);

    let mut child_env = Environment::with_parent(env);
    child_env.define("y".to_string(), num(24.0));

    assert_eq!(child_env.get("x"), Some(num(42.0)));
    assert_eq!(child_env.get("y"), Some(num(24.0)));
}

#[test]
fn test_function_arity() {
    let user_func = Function::UserDefined(Box::new(UserFunction {
        name: Some("test".to_string()),
        params: vec!["x".to_string(), "y".to_string()],
        body: Box::new(Value::Nil),
        closure: 0,
    }));

    assert_eq!(user_func.arity(), Arity::Exact(2));
    assert_eq!(user_func.name(), "test");
}

#[test]
fn test_value_equality() {
    // Same values should be equal
    assert_eq!(num(42.0), num(42.0));
    assert_eq!(Value::String("hello".to_string()), Value::String("hello".to_string()));
    assert_eq!(Value::Bool(true), Value::Bool(true));
    assert_eq!(Value::Nil, Value::Nil);

    // Different values should not be equal
    assert_ne!(num(42.0), num(43.0));
    assert_ne!(Value::String("hello".to_string()), Value::String("world".to_string()));
    assert_ne!(Value::Bool(true), Value::Bool(false));
    assert_ne!(Value::Nil, num(0.0));
}

#[test]
fn test_list_equality() {
    let list1 = Value::List(vec![num(1.0), num(2.0)]);
    let list2 = Value::List(vec![num(1.0), num(2.0)]);
    let list3 = Value::List(vec![num(2.0), num(1.0)]);
    let empty1 = Value::List(vec![]);
    let empty2 = Value::List(vec![]);

    assert_eq!(list1, list2);
    assert_ne!(list1, list3);
    assert_eq!(empty1, empty2);
    assert_ne!(list1, empty1);
}

#[test]
fn test_nested_list_equality() {
    let nested1 = Value::List(vec![
        Value::List(vec![num(1.0), num(2.0)]),
        Value::List(vec![num(3.0), num(4.0)]),
    ]);
    let nested2 = Value::List(vec![
        Value::List(vec![num(1.0), num(2.0)]),
        Value::List(vec![num(3.0), num(4.0)]),
    ]);
    let nested3 = Value::List(vec![
        Value::List(vec![num(1.0), num(2.0)]),
        Value::List(vec![num(3.0), num(5.0)]),
    ]);

    assert_eq!(nested1, nested2);
    assert_ne!(nested1, nested3);
}

#[test]
fn test_cons_with_different_types() {
    // Cons with number and list
    let result1 = num(1.0).cons(Value::List(vec![num(2.0)]));
    assert_eq!(result1, Value::List(vec![num(1.0), num(2.0)]));

    // Cons with string and nil
    let result2 = Value::String("hello".to_string()).cons(Value::Nil);
    assert_eq!(result2, Value::List(vec![Value::String("hello".to_string())]));

    // Cons with symbol and non-list
    let result3 = Value::Symbol("x".to_string()).cons(num(42.0));
    assert_eq!(result3, Value::List(vec![Value::Symbol("x".to_string()), num(42.0)]));
}

#[test]
fn test_car_cdr_edge_cases() {
    // Single element list
    let single = Value::List(vec![num(42.0)]);
    assert_eq!(single.car().unwrap(), &num(42.0));
    assert_eq!(single.cdr().unwrap(), Value::List(vec![]));

    // Two element list
    let pair = Value::List(vec![num(1.0), num(2.0)]);
    assert_eq!(pair.car().unwrap(), &num(1.0));
    assert_eq!(pair.cdr().unwrap(), Value::List(vec![num(2.0)]));

    // Non-list types should error
    assert!(num(42.0).car().is_err());
    assert!(Value::String("hello".to_string()).cdr().is_err());
}

#[test]
fn test_length_edge_cases() {
    assert_eq!(Value::Nil.length().unwrap(), 0);
    assert_eq!(Value::List(vec![]).length().unwrap(), 0);
    assert_eq!(Value::List(vec![Value::Nil]).length().unwrap(), 1);

    let long_list = Value::List((0..1000).map(|i| num(i as f64)).collect());
    assert_eq!(long_list.length().unwrap(), 1000);

    // Non-list types should error
    assert!(num(42.0).length().is_err());
}

#[test]
fn test_is_empty_list_comprehensive() {
    assert!(Value::List(vec![]).is_empty_list());
    assert!(Value::Nil.is_empty_list());
    assert!(!Value::List(vec![Value::Nil]).is_empty_list());
    assert!(!num(0.0).is_empty_list());
    assert!(!Value::String("".to_string()).is_empty_list());
}

#[test]
fn test_all_type_predicates() {
    let values = vec![
        Value::Nil,
        Value::Bool(true),
        num(42.0),
        Value::String("hello".to_string()),
        Value::Symbol("foo".to_string()),
        Value::List(vec![]),
    ];

    for (i, value) in values.iter().enumerate() {
        assert_eq!(is_nil(value), i == 0);
        assert_eq!(is_bool(value), i == 1);
        assert_eq!(is_number(value), i == 2);
        assert_eq!(is_string(value), i == 3);
        assert_eq!(is_symbol(value), i == 4);
        assert_eq!(is_list(value), i == 5);
        assert_eq!(is_atom(value), i != 5);
    }
}

#[test]
fn test_truthiness_comprehensive() {
    // Falsy values
    assert!(!is_truthy(&Value::Nil));
    assert!(!is_truthy(&Value::Bool(false)));

    // Truthy values
    assert!(is_truthy(&Value::Bool(true)));
    assert!(is_truthy(&num(0.0)));
    assert!(is_truthy(&num(-1.0)));
    assert!(is_truthy(&Value::String("".to_string())));
    assert!(is_truthy(&Value::String("hello".to_string())));
    assert!(is_truthy(&Value::Symbol("foo".to_string())));
    assert!(is_truthy(&Value::List(vec![])));
    assert!(is_truthy(&Value::List(vec![Value::Nil])));
}

#[test]
fn test_arity_edge_cases() {
    // Test all arity types
    assert!(check_arity(&[], &Arity::Exact(0)).is_ok());
    assert!(check_arity(&[Value::Nil], &Arity::Exact(0)).is_err());

    assert!(check_arity(&[], &Arity::AtLeast(0)).is_ok());
    assert!(check_arity(&[Value::Nil], &Arity::AtLeast(0)).is_ok());
    assert!(check_arity(&[], &Arity::AtLeast(1)).is_err());

    assert!(check_arity(&[], &Arity::Range(0, 2)).is_ok());
    assert!(check_arity(&[Value::Nil], &Arity::Range(0, 2)).is_ok());
    assert!(check_arity(&[Value::Nil, Value::Nil], &Arity::Range(0, 2)).is_ok());
    assert!(check_arity(&[Value::Nil, Value::Nil, Value::Nil], &Arity::Range(0, 2)).is_err());

    assert!(check_arity(&[], &Arity::Variadic).is_ok());
    let many_nils: Vec<Value> = (0..1000).map(|_| Value::Nil).collect();
    assert!(check_arity(&many_nils, &Arity::Variadic).is_ok());
}

#[test]
fn test_environment_scoping() {
    let mut parent = Environment::new();
    parent.define("x".to_string(), num(42.0));
    parent.define("y".to_string(), Value::String("parent".to_string()));

    let mut child = Environment::with_parent(parent);
    child.define("y".to_string(), Value::String("child".to_string()));
    child.define("z".to_string(), Value::Bool(true));

    // Child should shadow parent's y
    assert_eq!(child.get("y"), Some(Value::String("child".to_string())));

    // Child should inherit parent's x
    assert_eq!(child.get("x"), Some(num(42.0)));

    // Child's own variable
    assert_eq!(child.get("z"), Some(Value::Bool(true)));

    // Undefined variable
    assert_eq!(child.get("undefined"), None);
}

#[test]
fn test_environment_deep_nesting() {
    let mut env1 = Environment::new();
    env1.define("level".to_string(), num(1.0));

    let mut env2 = Environment::with_parent(env1);
    env2.define("level".to_string(), num(2.0));

    let mut env3 = Environment::with_parent(env2);
    env3.define("level".to_string(), num(3.0));

    let env4 = Environment::with_parent(env3);

    // Should get the most recent binding
    assert_eq!(env4.get("level"), Some(num(3.0)));
}

#[test]
fn test_expect_methods_comprehensive() {
    let number = num(3.14);
    let string = Value::String("hello".to_string());
    let symbol = Value::Symbol("foo".to_string());
    let list = Value::List(vec![num(1.0), num(2.0)]);
    let nil = Value::Nil;

    // Positive cases
    assert_eq!(to_f64(number.expect_number().unwrap()), 3.14);
    assert_eq!(string.expect_string().unwrap(), "hello");
    assert_eq!(symbol.expect_symbol().unwrap(), "foo");
    assert_eq!(list.expect_list().unwrap(), &[num(1.0), num(2.0)]);

    // Negative cases
    assert!(string.expect_number().is_err());
    assert!(number.expect_string().is_err());
    assert!(list.expect_symbol().is_err());
    assert!(symbol.expect_list().is_err());
    assert!(nil.expect_number().is_err());
}

#[test]
fn test_display_comprehensive() {
    // Test display of all value types
    assert_eq!(show(&Value::Nil), "nil");
    assert_eq!(show(&Value::Bool(true)), "#t");
    assert_eq!(show(&Value::Bool(false)), "#f");

    // Numbers
    assert_eq!(show(&num(42.0)), "42");
    assert_eq!(show(&num(-42.0)), "-42");
    assert_eq!(show(&num(3.14)), "3.14");
    assert_eq!(show(&num(0.0)), "0");

    // Strings with various escapes
    assert_eq!(show(&Value::String("simple".to_string())), "\"simple\"");
    assert_eq!(show(&Value::String("with\nline\tbreaks".to_string())), "\"with\\nline\\tbreaks\"");

    // Symbols
    assert_eq!(show(&Value::Symbol("simple".to_string())), "simple");
    assert_eq!(show(&Value::Symbol("kebab-case".to_string())), "kebab-case");

    // Lists
    assert_eq!(show(&Value::List(vec![])), "()");
    assert_eq!(show(&Value::List(vec![num(1.0)])), "(1)");
    assert_eq!(
        show(&Value::List(vec![num(1.0), Value::String("hello".to_string()), Value::Bool(true)])),
        "(1 \"hello\" #t)"
    );
}

#[test]
fn test_display_nested_structures() {
    let nested = Value::List(vec![
        Value::Symbol("+".to_string()),
        Value::List(vec![Value::Symbol("*".to_string()), num(2.0), num(3.0)]),
        num(4.0),
    ]);

    assert_eq!(show(&nested), "(+ (* 2 3) 4)");
}

#[test]
fn test_type_names_comprehensive() {
    assert_eq!(Value::Nil.type_label(), "nil");
    assert_eq!(Value::Bool(true).type_label(), "boolean");
    assert_eq!(Value::Bool(false).type_label(), "boolean");
    assert_eq!(num(42.0).type_label(), "number");
    assert_eq!(num(-3.14).type_label(), "number");
    assert_eq!(Value::String("".to_string()).type_label(), "string");
    assert_eq!(Value::String("hello".to_string()).type_label(), "string");
    assert_eq!(Value::Symbol("foo".to_string()).type_label(), "symbol");
    assert_eq!(Value::Symbol("+".to_string()).type_label(), "symbol");
    assert_eq!(Value::List(vec![]).type_label(), "list");
    assert_eq!(Value::List(vec![Value::Nil]).type_label(), "list");
}

#[test]
fn test_value_cloning() {
    let original = Value::List(vec![
        num(1.0),
        Value::String("hello".to_string()),
        Value::List(vec![Value::Bool(true)]),
    ]);

    let cloned = original.clone();
    assert_eq!(original, cloned);

    // Ensure deep clone
    if let (Value::List(orig_list), Value::List(cloned_list)) = (&original, &cloned) {
        assert_eq!(orig_list.len(), cloned_list.len());
        for (orig_item, cloned_item) in orig_list.iter().zip(cloned_list.iter()) {
            assert_eq!(orig_item, cloned_item);
        }
    }
}

#[test]
fn test_large_data_structures() {
    // Large list
    let large_list = Value::List((0..10000).map(|i| num(i as f64)).collect());
    assert_eq!(large_list.length().unwrap(), 10000);
    assert_eq!(large_list.car().unwrap(), &num(0.0));

    // Deep nesting
    let mut deeply_nested = num(42.0);
    for _ in 0..100 {
        deeply_nested = Value::List(vec![deeply_nested]);
    }

    // Should not crash
    assert_eq!(deeply_nested.type_label(), "list");
}

// Checks of the library's own.

#[test]
fn escape_string_writes_escapes() {
    assert_eq!(escape_string("a\"b\\c\nd\te\rf"), "a\\\"b\\\\c\\nd\\te\\rf");
    assert_eq!(escape_string(""), "");
}

#[test]
fn error_messages_name_the_type() {
    assert_eq!(num(1.0).car().unwrap_err().message(), "Type error: car: expected list, got number");
    assert_eq!(Value::Nil.expect_string().unwrap_err().message(), "Type error: Expected string, got nil");
    assert_eq!(
        check_arity(&[Value::Nil], &Arity::Range(2, 4)).unwrap_err().message(),
        "Arity error: Expected 2 to 4 arguments, got 1"
    );
    assert_eq!(
        check_arity(&[], &Arity::AtLeast(3)).unwrap_err().message(),
        "Arity error: Expected at least 3 arguments, got 0"
    );
}

#[test]
fn function_values_display_their_names() {
    let f = Value::Function(Box::new(Function::UserDefined(Box::new(UserFunction {
        name: None,
        params: vec![],
        body: Box::new(Value::Nil),
        closure: 0,
    }))));
    assert_eq!(show(&f), "#<function:<anonymous>>");
    assert_eq!(f.type_label(), "function");
}

#[test]
fn environment_set_updates_innermost_binding() {
    let mut env = Environment::new();
    env.define("x".to_string(), num(1.0));
    let mut child = Environment::with_parent(env);
    child.define("x".to_string(), num(2.0));
    assert!(child.set("x", num(3.0)).is_ok());
    assert_eq!(child.get("x"), Some(num(3.0)));
    child.restore_scope(0);
    assert_eq!(child.get("x"), Some(num(1.0)));
    let err = child.set("missing", num(0.0)).unwrap_err();
    assert_eq!(err.message(), "Undefined symbol: Cannot set undefined variable: missing");
    assert_eq!(child.current_scope(), 0);
}
