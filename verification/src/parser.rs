use vstd::prelude::*;
use crate::error::{ErrorView, RispyError};
use crate::lexer::{
    law_string_literal_round_trip, law_tokens_without_numerals, lex, lex_from, plain_token, tokenize, tokenize_spec,
    tokens_view, LexemeView, Token, TokenView,
};
use crate::number::Arithmetic;
use crate::text::{owned, string_is};
use crate::value::{lemma_values_view, values_view, Value, ValueView};

verus! {

/// The value an atom token stands for: `nil`, the booleans `#t`/`true` and
/// `#f`/`false`, and otherwise a number, string or symbol.
pub open spec fn atom_of(t: TokenView) -> ValueView {
    match t {
        TokenView::Number(n) => ValueView::Number(n),
        TokenView::Str(s) => ValueView::Str(s),
        TokenView::Symbol(s) => if s == "nil"@ {
            ValueView::Nil
        } else if s == "#t"@ || s == "true"@ {
            ValueView::Bool(true)
        } else if s == "#f"@ || s == "false"@ {
            ValueView::Bool(false)
        } else {
            ValueView::Symbol(s)
        },
        _ => ValueView::Nil,
    }
}

pub open spec fn end_of_input() -> ErrorView {
    ErrorView::Parse("Unexpected end of input"@)
}

pub open spec fn unclosed_list() -> ErrorView {
    ErrorView::Parse("Expected ')' after list elements"@)
}

pub open spec fn unmatched_close() -> ErrorView {
    ErrorView::Parse("Unexpected ')' - no matching '('"@)
}

/// The expression that starts at token `i`, and the position after it.
pub open spec fn parse_expr(t: Seq<TokenView>, i: int) -> Result<(ValueView, int), ErrorView>
    decreases t.len() - i, 0int,
{
    if i < 0 || i >= t.len() {
        Err(end_of_input())
    } else {
        match t[i] {
            TokenView::LeftParen => match parse_items(t, i + 1) {
                Ok((items, j)) => Ok((ValueView::List(items), j)),
                Err(e) => Err(e),
            },
            TokenView::Quote => match parse_expr(t, i + 1) {
                Ok((e, j)) => Ok((ValueView::List(seq![ValueView::Symbol("quote"@), e]), j)),
                Err(x) => Err(x),
            },
            TokenView::RightParen => Err(unmatched_close()),
            other => Ok((atom_of(other), i + 1)),
        }
    }
}

/// The elements of a list from token `i` on, and the position after its
/// closing parenthesis.
pub open spec fn parse_items(t: Seq<TokenView>, i: int) -> Result<(Seq<ValueView>, int), ErrorView>
    decreases t.len() - i, 1int,
{
    if i < 0 || i >= t.len() {
        Err(unclosed_list())
    } else if t[i] is RightParen {
        Ok((seq![], i + 1))
    } else {
        match parse_expr(t, i) {
            Ok((e, j)) => if i < j <= t.len() {
                match parse_items(t, j) {
                    Ok((rest, k)) => Ok((seq![e] + rest, k)),
                    Err(x) => Err(x),
                }
            } else {
                Err(unclosed_list())
            },
            Err(x) => Err(x),
        }
    }
}

/// The expressions from token `i` to the end.
pub open spec fn parse_program(t: Seq<TokenView>, i: int) -> Result<Seq<ValueView>, ErrorView>
    decreases t.len() - i,
{
    if i < 0 || i >= t.len() {
        Ok(seq![])
    } else {
        match parse_expr(t, i) {
            Ok((e, j)) => if i < j <= t.len() {
                match parse_program(t, j) {
                    Ok(rest) => Ok(seq![e] + rest),
                    Err(x) => Err(x),
                }
            } else {
                Ok(seq![])
            },
            Err(x) => Err(x),
        }
    }
}

/// The expressions of a whole token sequence.
pub open spec fn parse_tokens(t: Seq<TokenView>) -> Result<Seq<ValueView>, ErrorView> {
    parse_program(t, 0)
}

/// Each parse consumes at least one token and stays within the sequence.
pub proof fn lemma_parse_advances(t: Seq<TokenView>, i: int)
    requires
        0 <= i,
    ensures
        parse_expr(t, i) matches Ok((_, j)) ==> i < j <= t.len(),
        parse_items(t, i) matches Ok((_, j)) ==> i < j <= t.len(),
    decreases t.len() - i,
{
    if i < t.len() {
        lemma_parse_advances(t, i + 1);
        if !(t[i] is RightParen) {
            match parse_expr(t, i) {
                Ok((e, j)) => {
                    if i < j <= t.len() {
                        lemma_parse_advances(t, j);
                    }
                },
                Err(_) => {},
            }
        }
    }
}

fn parse_atom(token: &Token) -> (r: Value)
    requires
        !(token@ is LeftParen || token@ is RightParen || token@ is Quote),
    ensures
        r@ == atom_of(token@),
{
    match token {
        Token::Number(n) => Value::Number(*n),
        Token::String(s) => Value::String(s.clone()),
        Token::Symbol(s) => {
            if string_is(s, "nil") {
                Value::Nil
            } else if string_is(s, "#t") || string_is(s, "true") {
                Value::Bool(true)
            } else if string_is(s, "#f") || string_is(s, "false") {
                Value::Bool(false)
            } else {
                Value::Symbol(s.clone())
            }
        },
        _ => Value::Nil,
    }
}

fn parse_expression(tokens: &Vec<Token>, i: usize) -> (r: Result<(Value, usize), RispyError>)
    requires
        i <= tokens@.len(),
    ensures
        match r {
            Ok((v, j)) => parse_expr(tokens_view(tokens@), i as int) == Ok::<(ValueView, int), ErrorView>((v@, j as int)),
            Err(e) => parse_expr(tokens_view(tokens@), i as int) == Err::<(ValueView, int), ErrorView>(e@),
        },
    decreases tokens@.len() - i, 0int,
{
    let ghost t = tokens_view(tokens@);
    if i >= tokens.len() {
        return Err(RispyError::ParseError(owned("Unexpected end of input")));
    }
    assert(t[i as int] == tokens@[i as int]@);
    match &tokens[i] {
        Token::LeftParen => {
            match parse_list_items(tokens, i + 1) {
                Ok((items, j)) => Ok((Value::List(items), j)),
                Err(e) => Err(e),
            }
        },
        Token::Quote => {
            match parse_expression(tokens, i + 1) {
                Ok((e, j)) => {
                    let mut items: Vec<Value> = Vec::new();
                    items.push(Value::Symbol(owned("quote")));
                    items.push(e);
                    proof {
                        lemma_values_view(items@);
                        assert(values_view(items@) =~= seq![ValueView::Symbol("quote"@), items@[1]@]);
                    }
                    Ok((Value::List(items), j))
                },
                Err(x) => Err(x),
            }
        },
        Token::RightParen => Err(RispyError::ParseError(owned("Unexpected ')' - no matching '('"))),
        other => Ok((parse_atom(other), i + 1)),
    }
}

fn parse_list_items(tokens: &Vec<Token>, start: usize) -> (r: Result<(Vec<Value>, usize), RispyError>)
    requires
        start <= tokens@.len(),
    ensures
        match r {
            Ok((vs, j)) => parse_items(tokens_view(tokens@), start as int) == Ok::<(Seq<ValueView>, int), ErrorView>((values_view(vs@), j as int)),
            Err(e) => parse_items(tokens_view(tokens@), start as int) == Err::<(Seq<ValueView>, int), ErrorView>(e@),
        },
    decreases tokens@.len() - start, 1int,
{
    let ghost t = tokens_view(tokens@);
    let mut elements: Vec<Value> = Vec::new();
    let mut i = start;
    while i < tokens.len() && !matches!(tokens[i], Token::RightParen)
        invariant
            start <= i <= tokens@.len(),
            t == tokens_view(tokens@),
            parse_items(t, start as int) == match parse_items(t, i as int) {
                Ok((rest, k)) => Ok((values_view(elements@) + rest, k)),
                Err(e) => Err(e),
            },
        decreases tokens@.len() - i,
    {
        assert(t[i as int] == tokens@[i as int]@);
        match parse_expression(tokens, i) {
            Ok((e, j)) => {
                proof {
                    lemma_parse_advances(t, i as int);
                }
                let ghost before = values_view(elements@);
                let ghost ev = e@;
                let ghost old_el = elements@;
                let ghost e_val = e;
                elements.push(e);
                proof {
                    crate::value::lemma_values_view_push(old_el, e_val);
                    match parse_items(t, j as int) {
                        Ok((rest, k)) => {
                            assert(before + (seq![ev] + rest) =~= values_view(elements@) + rest);
                        },
                        Err(_) => {},
                    }
                }
                i = j;
            },
            Err(x) => {
                return Err(x);
            },
        }
    }
    if i >= tokens.len() {
        return Err(RispyError::ParseError(owned("Expected ')' after list elements")));
    }
    assert(t[i as int] == tokens@[i as int]@);
    assert(values_view(elements@) + Seq::<ValueView>::empty() =~= values_view(elements@));
    Ok((elements, i + 1))
}

/// The expressions a token sequence holds, in order.
pub fn parse(tokens: Vec<Token>) -> (r: Result<Vec<Value>, RispyError>)
    ensures
        match r {
            Ok(vs) => parse_tokens(tokens_view(tokens@)) == Ok::<Seq<ValueView>, ErrorView>(values_view(vs@)),
            Err(e) => parse_tokens(tokens_view(tokens@)) == Err::<Seq<ValueView>, ErrorView>(e@),
        },
{
    let ghost t = tokens_view(tokens@);
    let mut expressions: Vec<Value> = Vec::new();
    let mut i: usize = 0;
    while i < tokens.len()
        invariant
            i <= tokens@.len(),
            t == tokens_view(tokens@),
            parse_program(t, 0) == match parse_program(t, i as int) {
                Ok(rest) => Ok(values_view(expressions@) + rest),
                Err(e) => Err(e),
            },
        decreases tokens@.len() - i,
    {
        match parse_expression(&tokens, i) {
            Ok((e, j)) => {
                proof {
                    lemma_parse_advances(t, i as int);
                }
                let ghost before = values_view(expressions@);
                let ghost ev = e@;
                let ghost old_ex = expressions@;
                let ghost e_val = e;
                expressions.push(e);
                proof {
                    crate::value::lemma_values_view_push(old_ex, e_val);
                    match parse_program(t, j as int) {
                        Ok(rest) => {
                            assert(before + (seq![ev] + rest) =~= values_view(expressions@) + rest);
                        },
                        Err(_) => {},
                    }
                }
                i = j;
            },
            Err(x) => {
                return Err(x);
            },
        }
    }
    assert(values_view(expressions@) + Seq::<ValueView>::empty() =~= values_view(expressions@));
    Ok(expressions)
}


pub open spec fn not_single() -> ErrorView {
    ErrorView::Parse("Expected single expression"@)
}

/// The one expression a text holds, numerals read by the host `h`.
pub open spec fn parse_single_spec<A: Arithmetic>(source: Seq<char>, h: A) -> Result<ValueView, ErrorView> {
    match tokenize_spec(source, h) {
        Err(e) => Err(e),
        Ok(ts) => match parse_tokens(ts) {
            Err(e) => Err(e),
            Ok(vs) => if vs.len() == 1 {
                Ok(vs[0])
            } else {
                Err(not_single())
            },
        },
    }
}

/// The one expression a text holds: an error where the text does not lex,
/// does not parse, or holds no or several expressions.
pub fn parse_single<A: Arithmetic>(source: &str, arith: &A) -> (r: Result<Value, RispyError>)
    ensures
        crate::value::result_view(r) == parse_single_spec(source@, *arith),
{
    let tokens = match tokenize(source, arith) {
        Ok(ts) => ts,
        Err(e) => {
            return Err(e);
        },
    };
    let mut expressions = match parse(tokens) {
        Ok(xs) => xs,
        Err(e) => {
            return Err(e);
        },
    };
    proof {
        lemma_values_view(expressions@);
    }
    if expressions.len() != 1 {
        return Err(RispyError::ParseError(owned("Expected single expression")));
    }
    let ghost before = expressions@;
    let v = expressions.pop().unwrap();
    assert(v == before[0]);
    assert(values_view(before)[0] == v@);
    Ok(v)
}

/// A string value, printed and read back, is that same string value.
pub proof fn law_printed_string_reads_back<A: Arithmetic>(s: Seq<char>, h: A)
    ensures
        parse_single_spec(crate::value::render(ValueView::Str(s)), h) == Ok::<ValueView, ErrorView>(ValueView::Str(s)),
{
    let full = crate::value::render(ValueView::Str(s));
    law_string_literal_round_trip(s);
    let ls = seq![LexemeView::Text(s)];
    assert(lex_from(full, 0) == Ok::<Seq<LexemeView>, ErrorView>(ls));
    assert forall|k: int| 0 <= k < ls.len() implies !(#[trigger] ls[k] is Numeral) by {}
    law_tokens_without_numerals(full, 0, h);
    let ts = ls.map_values(|l: LexemeView| plain_token(l));
    assert(ts =~= seq![TokenView::Str(s)]);
    assert(parse_program(ts, 1) == Ok::<Seq<ValueView>, ErrorView>(seq![]));
    assert(seq![ValueView::Str(s)] + Seq::<ValueView>::empty() =~= seq![ValueView::Str(s)]);
}
} // verus!
