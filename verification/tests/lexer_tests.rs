use rispyboi::lexer::{is_valid_number, scan, tokenize, Lexeme, Token};
use rispyboi::number::{Arithmetic, Number, Text};

struct Host;

fn to_f64(n: Number) -> f64 {
    f64::from_bits(n.bits)
}

fn from_f64(x: f64) -> Number {
    Number { bits: x.to_bits() }
}

impl Arithmetic for Host {
    fn spec_read(&self, _text: Text) -> Option<Number> {
        unreachable!()
    }

    fn spec_sum(&self, a: Number, b: Number) -> Number {
        self.sum(a, b)
    }

    fn spec_difference(&self, a: Number, b: Number) -> Number {
        self.difference(a, b)
    }

    fn spec_product(&self, a: Number, b: Number) -> Number {
        self.product(a, b)
    }

    fn spec_quotient(&self, a: Number, b: Number) -> Number {
        self.quotient(a, b)
    }

    fn spec_render(&self, _n: Number) -> Text {
        unreachable!()
    }

    fn read_decimal(&self, text: &str) -> Option<Number> {
        text.parse::<f64>().ok().map(from_f64)
    }

    fn sum(&self, a: Number, b: Number) -> Number {
        from_f64(to_f64(a) + to_f64(b))
    }

    fn difference(&self, a: Number, b: Number) -> Number {
        from_f64(to_f64(a) - to_f64(b))
    }

    fn product(&self, a: Number, b: Number) -> Number {
        from_f64(to_f64(a) * to_f64(b))
    }

    fn quotient(&self, a: Number, b: Number) -> Number {
        from_f64(to_f64(a) / to_f64(b))
    }

    fn render(&self, n: Number) -> String {
        format!("{}", to_f64(n))
    }
}


#[test]
fn test_basic_tokens() {
    let tokens = tokenize("()", &Host).unwrap();
    assert_eq!(tokens, vec![Token::LeftParen, Token::RightParen]);
}

#[test]
fn test_simple_expression() {
    let tokens = tokenize("(+ 1 2)", &Host).unwrap();
    assert_eq!(
        tokens,
        vec![
            Token::LeftParen,
            Token::Symbol("+".to_string()),
            Token::Number(from_f64(1.0)),
            Token::Number(from_f64(2.0)),
            Token::RightParen
        ]
    );
}

#[test]
fn test_string_literal() {
    let tokens = tokenize("\"hello world\"", &Host).unwrap();
    assert_eq!(tokens, vec![Token::String("hello world".to_string())]);
}

#[test]
fn test_quote() {
    let tokens = tokenize("'(1 2 3)", &Host).unwrap();
    assert_eq!(
        tokens,
        vec![
            Token::Quote,
            Token::LeftParen,
            Token::Number(from_f64(1.0)),
            Token::Number(from_f64(2.0)),
            Token::Number(from_f64(3.0)),
            Token::RightParen
        ]
    );
}

#[test]
fn test_comments() {
    let tokens = tokenize("; this is a comment\n(+ 1 2)", &Host).unwrap();
    assert_eq!(
        tokens,
        vec![
            Token::LeftParen,
            Token::Symbol("+".to_string()),
            Token::Number(from_f64(1.0)),
            Token::Number(from_f64(2.0)),
            Token::RightParen
        ]
    );
}

#[test]
fn test_multiple_comments() {
    let tokens = tokenize("; first comment\n; second comment\n42", &Host).unwrap();
    assert_eq!(tokens, vec![Token::Number(from_f64(42.0))]);
}

#[test]
fn test_comment_at_end_of_line() {
    let tokens = tokenize("(+ 1 2) ; inline comment\n(* 3 4)", &Host).unwrap();
    assert_eq!(
        tokens,
        vec![
            Token::LeftParen,
            Token::Symbol("+".to_string()),
            Token::Number(from_f64(1.0)),
            Token::Number(from_f64(2.0)),
            Token::RightParen,
            Token::LeftParen,
            Token::Symbol("*".to_string()),
            Token::Number(from_f64(3.0)),
            Token::Number(from_f64(4.0)),
            Token::RightParen
        ]
    );
}

#[test]
fn lexer_test_empty_input() {
    let tokens = tokenize("", &Host).unwrap();
    assert_eq!(tokens, vec![]);
}

#[test]
fn test_whitespace_only() {
    let tokens = tokenize("   \t\n\r   ", &Host).unwrap();
    assert_eq!(tokens, vec![]);
}

#[test]
fn test_negative_numbers() {
    let tokens = tokenize("-42 -3.14", &Host).unwrap();
    assert_eq!(tokens, vec![Token::Number(from_f64(-42.0)), Token::Number(from_f64(-3.14))]);
}

#[test]
fn test_positive_numbers() {
    let tokens = tokenize("+42 +3.14", &Host).unwrap();
    assert_eq!(tokens, vec![Token::Number(from_f64(42.0)), Token::Number(from_f64(3.14))]);
}

#[test]
fn test_zero_numbers() {
    let tokens = tokenize("0 0.0 -0 +0", &Host).unwrap();
    assert_eq!(
        tokens,
        vec![
            Token::Number(from_f64(0.0)),
            Token::Number(from_f64(0.0)),
            Token::Number(from_f64(0.0)),
            Token::Number(from_f64(0.0))
        ]
    );
}

#[test]
fn test_decimal_numbers() {
    let tokens = tokenize("3.14159 0.5 123.456", &Host).unwrap();
    assert_eq!(
        tokens,
        vec![
            Token::Number(from_f64(3.14159)),
            Token::Number(from_f64(0.5)),
            Token::Number(from_f64(123.456))
        ]
    );
}

#[test]
fn test_symbols_with_special_chars() {
    let tokens = tokenize("+ - * / = < > <= >= atom? null?", &Host).unwrap();
    assert_eq!(
        tokens,
        vec![
            Token::Symbol("+".to_string()),
            Token::Symbol("-".to_string()),
            Token::Symbol("*".to_string()),
            Token::Symbol("/".to_string()),
            Token::Symbol("=".to_string()),
            Token::Symbol("<".to_string()),
            Token::Symbol(">".to_string()),
            Token::Symbol("<=".to_string()),
            Token::Symbol(">=".to_string()),
            Token::Symbol("atom?".to_string()),
            Token::Symbol("null?".to_string())
        ]
    );
}

#[test]
fn test_symbols_with_hyphens() {
    let tokens = tokenize("my-var kebab-case test-123", &Host).unwrap();
    assert_eq!(
        tokens,
        vec![
            Token::Symbol("my-var".to_string()),
            Token::Symbol("kebab-case".to_string()),
            Token::Symbol("test-123".to_string())
        ]
    );
}

#[test]
fn test_empty_string() {
    let tokens = tokenize("\"\"", &Host).unwrap();
    assert_eq!(tokens, vec![Token::String("".to_string())]);
}

#[test]
fn test_string_with_escapes() {
    let tokens = tokenize("\"hello\\nworld\\t\\\"quoted\\\"\"", &Host).unwrap();
    assert_eq!(
        tokens,
        vec![Token::String("hello\nworld\t\"quoted\"".to_string())]
    );
}

#[test]
fn test_string_with_backslashes() {
    let tokens = tokenize("\"path\\\\to\\\\file\"", &Host).unwrap();
    assert_eq!(tokens, vec![Token::String("path\\to\\file".to_string())]);
}

#[test]
fn test_multiple_strings() {
    let tokens = tokenize("\"first\" \"second\" \"third\"", &Host).unwrap();
    assert_eq!(
        tokens,
        vec![
            Token::String("first".to_string()),
            Token::String("second".to_string()),
            Token::String("third".to_string())
        ]
    );
}

#[test]
fn test_nested_parentheses() {
    let tokens = tokenize("((()))", &Host).unwrap();
    assert_eq!(
        tokens,
        vec![
            Token::LeftParen,
            Token::LeftParen,
            Token::LeftParen,
            Token::RightParen,
            Token::RightParen,
            Token::RightParen
        ]
    );
}

#[test]
fn test_multiple_quotes() {
    let tokens = tokenize("'x ''y '''z", &Host).unwrap();
    assert_eq!(
        tokens,
        vec![
            Token::Quote,
            Token::Symbol("x".to_string()),
            Token::Quote,
            Token::Quote,
            Token::Symbol("y".to_string()),
            Token::Quote,
            Token::Quote,
            Token::Quote,
            Token::Symbol("z".to_string())
        ]
    );
}

#[test]
fn test_mixed_numbers_and_symbols() {
    let tokens = tokenize("x123 123x x-123 123-x", &Host).unwrap();
    assert_eq!(
        tokens,
        vec![
            Token::Symbol("x123".to_string()),
            Token::Symbol("123x".to_string()),
            Token::Symbol("x-123".to_string()),
            Token::Symbol("123-x".to_string())
        ]
    );
}

#[test]
fn test_plus_minus_as_symbols() {
    let tokens = tokenize("+ - +x -y + -", &Host).unwrap();
    assert_eq!(
        tokens,
        vec![
            Token::Symbol("+".to_string()),
            Token::Symbol("-".to_string()),
            Token::Symbol("+x".to_string()),
            Token::Symbol("-y".to_string()),
            Token::Symbol("+".to_string()),
            Token::Symbol("-".to_string())
        ]
    );
}

#[test]
fn test_numbers_adjacent_to_parens() {
    let tokens = tokenize("(42)(3.14)", &Host).unwrap();
    assert_eq!(
        tokens,
        vec![
            Token::LeftParen,
            Token::Number(from_f64(42.0)),
            Token::RightParen,
            Token::LeftParen,
            Token::Number(from_f64(3.14)),
            Token::RightParen
        ]
    );
}

#[test]
fn test_symbols_adjacent_to_parens() {
    let tokens = tokenize("(foo)(bar)", &Host).unwrap();
    assert_eq!(
        tokens,
        vec![
            Token::LeftParen,
            Token::Symbol("foo".to_string()),
            Token::RightParen,
            Token::LeftParen,
            Token::Symbol("bar".to_string()),
            Token::RightParen
        ]
    );
}

#[test]
fn test_long_symbol() {
    let long_name = "a".repeat(1000);
    let input = format!("{}", long_name);
    let tokens = tokenize(&input, &Host).unwrap();
    assert_eq!(tokens, vec![Token::Symbol(long_name)]);
}

#[test]
fn test_many_tokens() {
    let input = "(+ 1 2 3 4 5 6 7 8 9 10)";
    let tokens = tokenize(input, &Host).unwrap();
    assert_eq!(tokens.len(), 13); // ( + 1 2 3 4 5 6 7 8 9 10 )
}

#[test]
fn test_complex_expression() {
    let input = "(define factorial (lambda (n) (if (= n 0) 1 (* n (factorial (- n 1))))))";
    let tokens = tokenize(input, &Host).unwrap();
    assert!(tokens.len() > 20);
    assert_eq!(tokens[0], Token::LeftParen);
    assert_eq!(tokens[1], Token::Symbol("define".to_string()));
    assert_eq!(tokens[2], Token::Symbol("factorial".to_string()));
}

#[test]
fn test_unterminated_string_error() {
    let result = tokenize("\"unterminated string", &Host);
    assert!(result.is_err());
}

#[test]
fn test_invalid_number_as_symbol() {
    let tokens = tokenize("123.456.789", &Host).unwrap();
    assert_eq!(tokens, vec![Token::Symbol("123.456.789".to_string())]);
}

#[test]
fn test_decimal_without_digits() {
    let tokens = tokenize("123. .456", &Host).unwrap();
    assert_eq!(
        tokens,
        vec![
            Token::Symbol("123.".to_string()),
            Token::Symbol(".456".to_string())
        ]
    );
}

// Checks of the library's own.

struct NoNumbers;

impl Arithmetic for NoNumbers {
    fn spec_read(&self, _text: Text) -> Option<Number> {
        unreachable!()
    }

    fn spec_sum(&self, a: Number, b: Number) -> Number {
        self.sum(a, b)
    }

    fn spec_difference(&self, a: Number, b: Number) -> Number {
        self.difference(a, b)
    }

    fn spec_product(&self, a: Number, b: Number) -> Number {
        self.product(a, b)
    }

    fn spec_quotient(&self, a: Number, b: Number) -> Number {
        self.quotient(a, b)
    }

    fn spec_render(&self, _n: Number) -> Text {
        unreachable!()
    }

    fn read_decimal(&self, _text: &str) -> Option<Number> {
        None
    }

    fn sum(&self, a: Number, _b: Number) -> Number {
        a
    }

    fn difference(&self, a: Number, _b: Number) -> Number {
        a
    }

    fn product(&self, a: Number, _b: Number) -> Number {
        a
    }

    fn quotient(&self, a: Number, _b: Number) -> Number {
        a
    }

    fn render(&self, _n: Number) -> String {
        String::new()
    }
}

#[test]
fn valid_number_shapes() {
    assert!(is_valid_number("42"));
    assert!(is_valid_number("-3.5"));
    assert!(is_valid_number("+0.25"));
    assert!(!is_valid_number("1.2.3"));
    assert!(!is_valid_number("12."));
    assert!(!is_valid_number(".5"));
    assert!(!is_valid_number("-"));
    assert!(!is_valid_number(""));
}

#[test]
fn scan_keeps_numerals_as_text() {
    let lexemes = scan("(x -1.5 \"s\\n\" 'y)").unwrap();
    assert_eq!(
        lexemes,
        vec![
            Lexeme::LeftParen,
            Lexeme::Symbol("x".to_string()),
            Lexeme::Numeral("-1.5".to_string()),
            Lexeme::Text("s\n".to_string()),
            Lexeme::Quote,
            Lexeme::Symbol("y".to_string()),
            Lexeme::RightParen,
        ]
    );
}

#[test]
fn lexer_errors() {
    assert_eq!(
        tokenize("\"abc", &Host).unwrap_err().message(),
        "Lexer error: Unterminated string literal"
    );
    assert_eq!(tokenize("(a ;)", &Host).unwrap(), vec![Token::LeftParen, Token::Symbol("a".to_string())]);
    assert_eq!(
        tokenize("(+ 12 x)", &NoNumbers).unwrap_err().message(),
        "Lexer error: Invalid number: 12"
    );
}

#[test]
fn numbers_are_read_by_the_host() {
    let tokens = tokenize("7 -0.5", &Host).unwrap();
    assert_eq!(tokens, vec![Token::Number(from_f64(7.0)), Token::Number(from_f64(-0.5))]);
}
