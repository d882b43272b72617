use rispyboi::error::RispyError;
use rispyboi::lexer::{tokenize, Token};
use rispyboi::number::{Arithmetic, Number, Text};
use rispyboi::parser::{parse, parse_single};
use rispyboi::value::Value;

struct Host;

fn to_f64(n: Number) -> f64 {
    f64::from_bits(n.bits)
}

fn from_f64(x: f64) -> Number {
    Number { bits: x.to_bits() }
}

impl Arithmetic for Host {
    fn spec_read(&self, _text: Text) -> Option<Number> {
        unreachable!()
    }

    fn spec_sum(&self, a: Number, b: Number) -> Number {
        self.sum(a, b)
    }

    fn spec_difference(&self, a: Number, b: Number) -> Number {
        self.difference(a, b)
    }

    fn spec_product(&self, a: Number, b: Number) -> Number {
        self.product(a, b)
    }

    fn spec_quotient(&self, a: Number, b: Number) -> Number {
        self.quotient(a, b)
    }

    fn spec_render(&self, _n: Number) -> Text {
        unreachable!()
    }

    fn read_decimal(&self, text: &str) -> Option<Number> {
        text.parse::<f64>().ok().map(from_f64)
    }

    fn sum(&self, a: Number, b: Number) -> Number {
        from_f64(to_f64(a) + to_f64(b))
    }

    fn difference(&self, a: Number, b: Number) -> Number {
        from_f64(to_f64(a) - to_f64(b))
    }

    fn product(&self, a: Number, b: Number) -> Number {
        from_f64(to_f64(a) * to_f64(b))
    }

    fn quotient(&self, a: Number, b: Number) -> Number {
        from_f64(to_f64(a) / to_f64(b))
    }

    fn render(&self, n: Number) -> String {
        format!("{}", to_f64(n))
    }
}

fn num(x: f64) -> Value {
    Value::Number(from_f64(x))
}


fn parse_test(source: &str) -> Result<Value, RispyError> {
    parse_single(source, &Host)
}

#[test]
fn test_parse_atoms() {
    assert_eq!(parse_test("42").unwrap(), num(42.0));
    assert_eq!(parse_test("-3.14").unwrap(), num(-3.14));
    assert_eq!(
        parse_test("\"hello\"").unwrap(),
        Value::String("hello".to_string())
    );
    assert_eq!(parse_test("foo").unwrap(), Value::Symbol("foo".to_string()));
    assert_eq!(parse_test("nil").unwrap(), Value::Nil);
    assert_eq!(parse_test("#t").unwrap(), Value::Bool(true));
    assert_eq!(parse_test("#f").unwrap(), Value::Bool(false));
    assert_eq!(parse_test("true").unwrap(), Value::Bool(true));
    assert_eq!(parse_test("false").unwrap(), Value::Bool(false));
}

#[test]
fn test_parse_empty_list() {
    assert_eq!(parse_test("()").unwrap(), Value::List(vec![]));
}

#[test]
fn test_parse_simple_lists() {
    let result = parse_test("(1 2 3)").unwrap();
    assert_eq!(
        result,
        Value::List(vec![
            num(1.0),
            num(2.0),
            num(3.0)
        ])
    );

    let result2 = parse_test("(+ 1 2)").unwrap();
    assert_eq!(
        result2,
        Value::List(vec![
            Value::Symbol("+".to_string()),
            num(1.0),
            num(2.0)
        ])
    );
}

#[test]
fn test_parse_nested_lists() {
    let result = parse_test("(+ (* 2 3) 4)").unwrap();
    assert_eq!(
        result,
        Value::List(vec![
            Value::Symbol("+".to_string()),
            Value::List(vec![
                Value::Symbol("*".to_string()),
                num(2.0),
                num(3.0)
            ]),
            num(4.0)
        ])
    );
}

#[test]
fn test_parse_quote() {
    let result = parse_test("'x").unwrap();
    assert_eq!(
        result,
        Value::List(vec![
            Value::Symbol("quote".to_string()),
            Value::Symbol("x".to_string())
        ])
    );

    let result2 = parse_test("'(1 2 3)").unwrap();
    assert_eq!(
        result2,
        Value::List(vec![
            Value::Symbol("quote".to_string()),
            Value::List(vec![
                num(1.0),
                num(2.0),
                num(3.0)
            ])
        ])
    );
}

#[test]
fn test_parse_nested_quotes() {
    let result = parse_test("''x").unwrap();
    assert_eq!(
        result,
        Value::List(vec![
            Value::Symbol("quote".to_string()),
            Value::List(vec![
                Value::Symbol("quote".to_string()),
                Value::Symbol("x".to_string())
            ])
        ])
    );
}

#[test]
fn test_parse_multiple_expressions() {
    let tokens = tokenize("(+ 1 2) (* 3 4)", &Host).unwrap();
    let result = parse(tokens).unwrap();

    assert_eq!(result.len(), 2);
    assert_eq!(
        result[0],
        Value::List(vec![
            Value::Symbol("+".to_string()),
            num(1.0),
            num(2.0)
        ])
    );
    assert_eq!(
        result[1],
        Value::List(vec![
            Value::Symbol("*".to_string()),
            num(3.0),
            num(4.0)
        ])
    );
}

#[test]
fn test_parse_errors() {
    assert!(parse_test("(").is_err());
    assert!(parse_test(")").is_err());
    assert!(parse_test("(1 2").is_err());
    assert!(parse_test("1 2)").is_err());
    assert!(parse_test("((1 2)").is_err());

    // Test quote without expression
    let tokens = vec![Token::Quote];
    assert!(parse(tokens).is_err());
}

#[test]
fn test_parse_error_messages() {
    match parse_test("(") {
        Err(RispyError::ParseError(msg)) => {
            assert!(msg.contains("Expected ')'"));
        }
        _ => panic!("Expected ParseError"),
    }

    match parse_test(")") {
        Err(RispyError::ParseError(msg)) => {
            assert!(msg.contains("Unexpected ')'"));
        }
        _ => panic!("Expected ParseError"),
    }
}

#[test]
fn test_complex_nested_structure() {
    let source = "(define factorial (lambda (n) (if (= n 0) 1 (* n (factorial (- n 1))))))";
    let result = parse_test(source).unwrap();

    // Just verify it parses without error and has correct top-level structure
    if let Value::List(list) = result {
        assert_eq!(list.len(), 3);
        assert_eq!(list[0], Value::Symbol("define".to_string()));
        assert_eq!(list[1], Value::Symbol("factorial".to_string()));
        // Third element should be a lambda expression
        assert!(matches!(list[2], Value::List(_)));
    } else {
        panic!("Expected list");
    }
}

#[test]
fn test_mixed_types_in_list() {
    let result = parse_test("(42 \"hello\" foo #t nil)").unwrap();
    assert_eq!(
        result,
        Value::List(vec![
            num(42.0),
            Value::String("hello".to_string()),
            Value::Symbol("foo".to_string()),
            Value::Bool(true),
            Value::Nil
        ])
    );
}

#[test]
fn parser_test_empty_input() {
    let tokens = tokenize("", &Host).unwrap();
    let result = parse(tokens).unwrap();
    assert_eq!(result.len(), 0);
}

#[test]
fn test_whitespace_and_comments() {
    let source = "; This is a comment\n(+ 1 2) ; Another comment\n(* 3 4)";
    let tokens = tokenize(source, &Host).unwrap();
    let result = parse(tokens).unwrap();

    assert_eq!(result.len(), 2);
    assert_eq!(
        result[0],
        Value::List(vec![
            Value::Symbol("+".to_string()),
            num(1.0),
            num(2.0)
        ])
    );
}

#[test]
fn test_deeply_nested_lists() {
    let result = parse_test("((((1))))").unwrap();
    assert_eq!(
        result,
        Value::List(vec![Value::List(vec![Value::List(vec![Value::List(
            vec![num(1.0)]
        )])])])
    );
}

#[test]
fn test_multiple_nested_quotes() {
    let result = parse_test("''''x").unwrap();
    assert_eq!(
        result,
        Value::List(vec![
            Value::Symbol("quote".to_string()),
            Value::List(vec![
                Value::Symbol("quote".to_string()),
                Value::List(vec![
                    Value::Symbol("quote".to_string()),
                    Value::List(vec![
                        Value::Symbol("quote".to_string()),
                        Value::Symbol("x".to_string())
                    ])
                ])
            ])
        ])
    );
}

#[test]
fn test_quote_list_with_nested_quotes() {
    let result = parse_test("'(a 'b ''c)").unwrap();
    assert_eq!(
        result,
        Value::List(vec![
            Value::Symbol("quote".to_string()),
            Value::List(vec![
                Value::Symbol("a".to_string()),
                Value::List(vec![
                    Value::Symbol("quote".to_string()),
                    Value::Symbol("b".to_string())
                ]),
                Value::List(vec![
                    Value::Symbol("quote".to_string()),
                    Value::List(vec![
                        Value::Symbol("quote".to_string()),
                        Value::Symbol("c".to_string())
                    ])
                ])
            ])
        ])
    );
}

#[test]
fn test_large_list() {
    let input = format!(
        "({})",
        (1..=100)
            .map(|i| i.to_string())
            .collect::<Vec<_>>()
            .join(" ")
    );
    let result = parse_test(&input).unwrap();
    if let Value::List(list) = result {
        assert_eq!(list.len(), 100);
        assert_eq!(list[0], num(1.0));
        assert_eq!(list[99], num(100.0));
    } else {
        panic!("Expected list");
    }
}

#[test]
fn test_heterogeneous_list() {
    let result = parse_test("(42 \"hello\" #t nil foo '(1 2))").unwrap();
    assert_eq!(
        result,
        Value::List(vec![
            num(42.0),
            Value::String("hello".to_string()),
            Value::Bool(true),
            Value::Nil,
            Value::Symbol("foo".to_string()),
            Value::List(vec![
                Value::Symbol("quote".to_string()),
                Value::List(vec![num(1.0), num(2.0)])
            ])
        ])
    );
}

#[test]
fn test_boolean_variations() {
    let result = parse_test("(#t #f true false)").unwrap();
    assert_eq!(
        result,
        Value::List(vec![
            Value::Bool(true),
            Value::Bool(false),
            Value::Bool(true),
            Value::Bool(false)
        ])
    );
}

#[test]
fn test_nil_variations() {
    let result = parse_test("(nil () nil)").unwrap();
    assert_eq!(
        result,
        Value::List(vec![Value::Nil, Value::List(vec![]), Value::Nil])
    );
}

#[test]
fn test_symbols_with_numbers() {
    let result = parse_test("(var1 var2 x123 test-123 123test)").unwrap();
    assert_eq!(
        result,
        Value::List(vec![
            Value::Symbol("var1".to_string()),
            Value::Symbol("var2".to_string()),
            Value::Symbol("x123".to_string()),
            Value::Symbol("test-123".to_string()),
            Value::Symbol("123test".to_string())
        ])
    );
}

#[test]
fn test_single_character_symbols() {
    let result = parse_test("(+ - * / = < > ?)").unwrap();
    assert_eq!(
        result,
        Value::List(vec![
            Value::Symbol("+".to_string()),
            Value::Symbol("-".to_string()),
            Value::Symbol("*".to_string()),
            Value::Symbol("/".to_string()),
            Value::Symbol("=".to_string()),
            Value::Symbol("<".to_string()),
            Value::Symbol(">".to_string()),
            Value::Symbol("?".to_string())
        ])
    );
}

#[test]
fn test_numbers_edge_cases() {
    let result = parse_test("(0 -0 +0 42 -42 +42 3.14 -3.14 +3.14)").unwrap();
    if let Value::List(list) = result {
        assert_eq!(list.len(), 9);
        assert_eq!(list[0], num(0.0));
        assert_eq!(list[1], num(0.0));
        assert_eq!(list[2], num(0.0));
        assert_eq!(list[8], num(3.14));
    } else {
        panic!("Expected list");
    }
}

#[test]
fn test_string_edge_cases() {
    let result = parse_test("(\"\" \"a\" \"hello world\" \"with\\nescapes\")").unwrap();
    assert_eq!(
        result,
        Value::List(vec![
            Value::String("".to_string()),
            Value::String("a".to_string()),
            Value::String("hello world".to_string()),
            Value::String("with\nescapes".to_string())
        ])
    );
}

#[test]
fn test_unbalanced_parens_left() {
    assert!(parse_test("((").is_err());
    assert!(parse_test("(((").is_err());
    assert!(parse_test("(+ 1 (+ 2").is_err());
}

#[test]
fn test_unbalanced_parens_right() {
    assert!(parse_test("))").is_err());
    assert!(parse_test(")))").is_err());
    assert!(parse_test("(+ 1 2))").is_err());
}

#[test]
fn test_mismatched_structures() {
    assert!(parse_test("(+ 1 2 (").is_err());
    assert!(parse_test("(+ 1 2) )").is_err());
    assert!(parse_test("((+ 1) 2))").is_err());
}

#[test]
fn test_quote_without_expression() {
    let tokens = vec![Token::Quote];
    assert!(parse(tokens).is_err());
}

#[test]
fn test_error_message_content() {
    match parse_test("(+ 1 2") {
        Err(RispyError::ParseError(msg)) => {
            assert!(msg.contains("Expected ')"));
        }
        _ => panic!("Expected ParseError with specific message"),
    }

    match parse_test("+ 1 2)") {
        Err(RispyError::ParseError(msg)) => {
            assert!(msg.contains("Unexpected ')'"));
        }
        _ => panic!("Expected ParseError with specific message"),
    }
}

#[test]
fn test_complex_lisp_expressions() {
    // Function definition
    let func_def = "(define square (lambda (x) (* x x)))";
    let result = parse_test(func_def).unwrap();
    if let Value::List(list) = result {
        assert_eq!(list.len(), 3);
        assert_eq!(list[0], Value::Symbol("define".to_string()));
        assert_eq!(list[1], Value::Symbol("square".to_string()));
    } else {
        panic!("Expected list");
    }

    // Conditional expression
    let cond_expr = "(if (> x 0) \"positive\" \"non-positive\")";
    let result = parse_test(cond_expr).unwrap();
    if let Value::List(list) = result {
        assert_eq!(list.len(), 4);
        assert_eq!(list[0], Value::Symbol("if".to_string()));
    } else {
        panic!("Expected list");
    }
}

#[test]
fn test_many_single_expressions() {
    let input = "1 2 3 4 5 6 7 8 9 10";
    let tokens = tokenize(input, &Host).unwrap();
    let result = parse(tokens).unwrap();
    assert_eq!(result.len(), 10);
    for (i, expr) in result.iter().enumerate() {
        assert_eq!(*expr, num((i + 1) as f64));
    }
}

#[test]
fn test_alternating_quotes_and_atoms() {
    let result = parse_test("('a b 'c d 'e)").unwrap();
    assert_eq!(
        result,
        Value::List(vec![
            Value::List(vec![
                Value::Symbol("quote".to_string()),
                Value::Symbol("a".to_string())
            ]),
            Value::Symbol("b".to_string()),
            Value::List(vec![
                Value::Symbol("quote".to_string()),
                Value::Symbol("c".to_string())
            ]),
            Value::Symbol("d".to_string()),
            Value::List(vec![
                Value::Symbol("quote".to_string()),
                Value::Symbol("e".to_string())
            ])
        ])
    );
}

#[test]
fn test_quoted_empty_list() {
    let result = parse_test("'()").unwrap();
    assert_eq!(
        result,
        Value::List(vec![
            Value::Symbol("quote".to_string()),
            Value::List(vec![])
        ])
    );
}

#[test]
fn test_multiple_expressions_with_quotes() {
    let input = "'a 'b '(1 2) '(x y z)";
    let tokens = tokenize(input, &Host).unwrap();
    let result = parse(tokens).unwrap();
    assert_eq!(result.len(), 4);

    assert_eq!(
        result[0],
        Value::List(vec![
            Value::Symbol("quote".to_string()),
            Value::Symbol("a".to_string())
        ])
    );

    assert_eq!(
        result[3],
        Value::List(vec![
            Value::Symbol("quote".to_string()),
            Value::List(vec![
                Value::Symbol("x".to_string()),
                Value::Symbol("y".to_string()),
                Value::Symbol("z".to_string())
            ])
        ])
    );
}

#[test]
fn test_nested_function_calls() {
    let result = parse_test("(+ (* 2 3) (/ 8 4) (- 10 5))").unwrap();
    if let Value::List(list) = result {
        assert_eq!(list.len(), 4);
        assert_eq!(list[0], Value::Symbol("+".to_string()));

        // Check nested structure
        if let Value::List(nested) = &list[1] {
            assert_eq!(nested[0], Value::Symbol("*".to_string()));
            assert_eq!(nested[1], num(2.0));
            assert_eq!(nested[2], num(3.0));
        } else {
            panic!("Expected nested list");
        }
    } else {
        panic!("Expected list");
    }
}

// Checks of the library's own.

#[test]
fn parse_single_wants_one_expression() {
    assert_eq!(
        parse_single("1 2", &Host).unwrap_err().message(),
        "Parse error: Expected single expression"
    );
    assert_eq!(parse_single("", &Host).unwrap_err().message(), "Parse error: Expected single expression");
    assert_eq!(parse_single("\"x", &Host).unwrap_err().message(), "Lexer error: Unterminated string literal");
}

#[test]
fn parse_error_kinds() {
    assert_eq!(parse(vec![Token::RightParen]).unwrap_err().message(), "Parse error: Unexpected ')' - no matching '('");
    assert_eq!(parse(vec![Token::LeftParen]).unwrap_err().message(), "Parse error: Expected ')' after list elements");
    assert_eq!(parse(vec![Token::Quote]).unwrap_err().message(), "Parse error: Unexpected end of input");
}

#[test]
fn parse_tokens_directly() {
    let tokens = vec![
        Token::LeftParen,
        Token::Symbol("nil".to_string()),
        Token::Symbol("true".to_string()),
        Token::String("s".to_string()),
        Token::Number(from_f64(2.5)),
        Token::RightParen,
    ];
    assert_eq!(
        parse(tokens).unwrap(),
        vec![Value::List(vec![Value::Nil, Value::Bool(true), Value::String("s".to_string()), num(2.5)])]
    );
}
