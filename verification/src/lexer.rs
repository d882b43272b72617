use vstd::prelude::*;
use crate::error::{ErrorView, RispyError};
use crate::number::{Arithmetic, Number};
use crate::text::{chars_of, join, owned, string_from_chars};
use crate::value::{escape, escape_char};

verus! {

/// A token of the source text.
#[derive(Debug, PartialEq)]
pub enum Token {
    LeftParen,
    RightParen,
    Symbol(String),
    Number(Number),
    String(String),
    Quote,
}

/// A token as a mathematical value.
pub enum TokenView {
    LeftParen,
    RightParen,
    Symbol(Seq<char>),
    Number(Number),
    Str(Seq<char>),
    Quote,
}

impl View for Token {
    type V = TokenView;

    open spec fn view(&self) -> TokenView {
        match self {
            Token::LeftParen => TokenView::LeftParen,
            Token::RightParen => TokenView::RightParen,
            Token::Symbol(s) => TokenView::Symbol(s@),
            Token::Number(n) => TokenView::Number(*n),
            Token::String(s) => TokenView::Str(s@),
            Token::Quote => TokenView::Quote,
        }
    }
}

impl Clone for Token {
    fn clone(&self) -> (r: Token)
        ensures
            r@ == self@,
    {
        match self {
            Token::LeftParen => Token::LeftParen,
            Token::RightParen => Token::RightParen,
            Token::Symbol(s) => Token::Symbol(s.clone()),
            Token::Number(n) => Token::Number(*n),
            Token::String(s) => Token::String(s.clone()),
            Token::Quote => Token::Quote,
        }
    }
}

/// A lexeme: a token before numerals are read as numbers.
#[derive(Debug, PartialEq)]
pub enum Lexeme {
    LeftParen,
    RightParen,
    Quote,
    Symbol(String),
    /// The text of a number literal.
    Numeral(String),
    /// The contents of a string literal, escapes resolved.
    Text(String),
}

pub enum LexemeView {
    LeftParen,
    RightParen,
    Quote,
    Symbol(Seq<char>),
    Numeral(Seq<char>),
    Text(Seq<char>),
}

impl View for Lexeme {
    type V = LexemeView;

    open spec fn view(&self) -> LexemeView {
        match self {
            Lexeme::LeftParen => LexemeView::LeftParen,
            Lexeme::RightParen => LexemeView::RightParen,
            Lexeme::Quote => LexemeView::Quote,
            Lexeme::Symbol(s) => LexemeView::Symbol(s@),
            Lexeme::Numeral(s) => LexemeView::Numeral(s@),
            Lexeme::Text(s) => LexemeView::Text(s@),
        }
    }
}

/// The characters skipped between tokens.
pub open spec fn is_space(c: char) -> bool {
    c == ' ' || c == '\t' || c == '\n' || c == '\r'
}

/// Unicode white space (the characters with the White_Space property).
pub open spec fn is_white(c: char) -> bool {
    ||| ('\u{9}' <= c && c <= '\u{d}')
    ||| c == ' '
    ||| c == '\u{85}'
    ||| c == '\u{a0}'
    ||| c == '\u{1680}'
    ||| ('\u{2000}' <= c && c <= '\u{200a}')
    ||| c == '\u{2028}'
    ||| c == '\u{2029}'
    ||| c == '\u{202f}'
    ||| c == '\u{205f}'
    ||| c == '\u{3000}'
}

/// The characters that end a symbol besides white space.
pub open spec fn is_delimiter(c: char) -> bool {
    c == '(' || c == ')' || c == '"' || c == '\'' || c == ';'
}

pub open spec fn ends_word(c: char) -> bool {
    is_white(c) || is_delimiter(c)
}

pub open spec fn is_digit(c: char) -> bool {
    '0' <= c && c <= '9'
}

/// The first position at or after `i` where a word ends.
pub open spec fn word_end(s: Seq<char>, i: int) -> int
    decreases s.len() - i,
{
    if i >= s.len() || i < 0 || ends_word(s[i]) {
        i
    } else {
        word_end(s, i + 1)
    }
}

/// The first position at or after `i` holding a newline, or the end.
pub open spec fn line_end(s: Seq<char>, i: int) -> int
    decreases s.len() - i,
{
    if i >= s.len() || i < 0 || s[i] == '\n' {
        i
    } else {
        line_end(s, i + 1)
    }
}

/// The first position at or after `i` holding neither a digit nor a dot.
pub open spec fn digits_end(s: Seq<char>, i: int) -> int
    decreases s.len() - i,
{
    if i >= s.len() || i < 0 || !(is_digit(s[i]) || s[i] == '.') {
        i
    } else {
        digits_end(s, i + 1)
    }
}

/// What an escape sequence `\c` stands for in a string literal.
pub open spec fn unescape(c: char) -> Seq<char> {
    if c == 'n' {
        seq!['\n']
    } else if c == 't' {
        seq!['\t']
    } else if c == 'r' {
        seq!['\r']
    } else if c == '\\' {
        seq!['\\']
    } else if c == '"' {
        seq!['"']
    } else {
        seq!['\\', c]
    }
}

/// The contents of a string literal whose body starts at `i`, and the position
/// after its closing quote; `None` where the literal is not closed.
pub open spec fn string_literal(s: Seq<char>, i: int) -> Option<(Seq<char>, int)>
    decreases s.len() - i,
{
    if i >= s.len() || i < 0 {
        None
    } else if s[i] == '"' {
        Some((seq![], i + 1))
    } else if s[i] == '\\' {
        if i + 1 >= s.len() {
            None
        } else {
            match string_literal(s, i + 2) {
                Some((body, j)) => Some((unescape(s[i + 1]) + body, j)),
                None => None,
            }
        }
    } else {
        match string_literal(s, i + 1) {
            Some((body, j)) => Some((seq![s[i]] + body, j)),
            None => None,
        }
    }
}

pub open spec fn count_dots(t: Seq<char>) -> nat
    decreases t.len(),
{
    if t.len() == 0 {
        0
    } else {
        count_dots(t.drop_last()) + if t.last() == '.' { 1nat } else { 0nat }
    }
}

/// A literal without its sign, if it has one.
pub open spec fn unsigned_part(t: Seq<char>) -> Seq<char> {
    if t.len() > 0 && (t[0] == '+' || t[0] == '-') {
        t.drop_first()
    } else {
        t
    }
}

/// Digits with at most one dot, neither first nor last.
pub open spec fn valid_unsigned(u: Seq<char>) -> bool {
    &&& u.len() > 0
    &&& count_dots(u) <= 1
    &&& u.last() != '.'
    &&& u[0] != '.'
    &&& forall|k: int| 0 <= k < u.len() ==> is_digit(#[trigger] u[k]) || u[k] == '.'
}

/// A number literal: an optional sign, then digits with at most one dot,
/// neither first nor last.
pub open spec fn valid_number(t: Seq<char>) -> bool {
    t.len() > 0 && valid_unsigned(unsigned_part(t))
}

/// The lexeme of a run of digits and dots that starts at `start`, with the
/// digits and dots read from `k` on.
pub open spec fn numeric_tail(s: Seq<char>, start: int, k: int) -> (LexemeView, int) {
    let j = digits_end(s, k);
    if j < s.len() && !ends_word(s[j]) {
        let e = word_end(s, j);
        (LexemeView::Symbol(s.subrange(start, e)), e)
    } else {
        let t = s.subrange(start, j);
        if valid_number(t) {
            (LexemeView::Numeral(t), j)
        } else {
            (LexemeView::Symbol(t), j)
        }
    }
}

/// The lexeme that starts at `i` with a digit, a sign or a dot, and the
/// position after it.
pub open spec fn numeric_lexeme(s: Seq<char>, i: int) -> (LexemeView, int) {
    let c = s[i];
    if c == '+' || c == '-' {
        if i + 1 < s.len() {
            let n = s[i + 1];
            if !is_digit(n) && n != '.' {
                if !ends_word(n) {
                    let j = word_end(s, i + 1);
                    (LexemeView::Symbol(s.subrange(i, j)), j)
                } else {
                    (LexemeView::Symbol(seq![c]), i + 1)
                }
            } else {
                numeric_tail(s, i, i + 1)
            }
        } else {
            (LexemeView::Symbol(seq![c]), i + 1)
        }
    } else if c == '.' {
        if i + 1 < s.len() && is_digit(s[i + 1]) {
            numeric_tail(s, i, i + 1)
        } else {
            (LexemeView::Symbol(seq!['.']), i + 1)
        }
    } else {
        numeric_tail(s, i, i)
    }
}

/// One step of the scanner at position `i`.
pub enum LexStep {
    Done,
    Skip(int),
    Emit(LexemeView, int),
    Fail(ErrorView),
}

pub open spec fn lex_step(s: Seq<char>, i: int) -> LexStep {
    if i >= s.len() || i < 0 {
        LexStep::Done
    } else {
        let c = s[i];
        if is_space(c) {
            LexStep::Skip(i + 1)
        } else if c == ';' {
            LexStep::Skip(line_end(s, i + 1))
        } else if c == '(' {
            LexStep::Emit(LexemeView::LeftParen, i + 1)
        } else if c == ')' {
            LexStep::Emit(LexemeView::RightParen, i + 1)
        } else if c == '\'' {
            LexStep::Emit(LexemeView::Quote, i + 1)
        } else if c == '"' {
            match string_literal(s, i + 1) {
                Some((body, j)) => LexStep::Emit(LexemeView::Text(body), j),
                None => LexStep::Fail(ErrorView::Lex("Unterminated string literal"@)),
            }
        } else if is_digit(c) || c == '-' || c == '+' || c == '.' {
            let (t, j) = numeric_lexeme(s, i);
            LexStep::Emit(t, j)
        } else {
            let j = word_end(s, i);
            if j == i {
                LexStep::Fail(ErrorView::Lex("Unexpected character: "@ + seq![c]))
            } else {
                LexStep::Emit(LexemeView::Symbol(s.subrange(i, j)), j)
            }
        }
    }
}

/// The lexemes of the text from position `i` on, or the error that stops the scan.
pub open spec fn lex_from(s: Seq<char>, i: int) -> Result<Seq<LexemeView>, ErrorView>
    decreases s.len() - i,
{
    match lex_step(s, i) {
        LexStep::Done => Ok(seq![]),
        LexStep::Skip(j) => if i < j <= s.len() {
            lex_from(s, j)
        } else {
            Ok(seq![])
        },
        LexStep::Emit(t, j) => if i < j <= s.len() {
            match lex_from(s, j) {
                Ok(rest) => Ok(seq![t] + rest),
                Err(e) => Err(e),
            }
        } else {
            Ok(seq![])
        },
        LexStep::Fail(e) => Err(e),
    }
}

/// The lexemes of a whole text.
pub open spec fn lex(s: Seq<char>) -> Result<Seq<LexemeView>, ErrorView> {
    lex_from(s, 0)
}

proof fn lemma_word_end(s: Seq<char>, i: int)
    requires
        0 <= i <= s.len(),
    ensures
        i <= word_end(s, i) <= s.len(),
        forall|k: int| i <= k < word_end(s, i) ==> !ends_word(#[trigger] s[k]),
        word_end(s, i) < s.len() ==> ends_word(s[word_end(s, i)]),
    decreases s.len() - i,
{
    if i < s.len() && !ends_word(s[i]) {
        lemma_word_end(s, i + 1);
    }
}

proof fn lemma_line_end(s: Seq<char>, i: int)
    requires
        0 <= i <= s.len(),
    ensures
        i <= line_end(s, i) <= s.len(),
        forall|k: int| i <= k < line_end(s, i) ==> #[trigger] s[k] != '\n',
        line_end(s, i) < s.len() ==> s[line_end(s, i)] == '\n',
    decreases s.len() - i,
{
    if i < s.len() && s[i] != '\n' {
        lemma_line_end(s, i + 1);
    }
}

proof fn lemma_digits_end(s: Seq<char>, i: int)
    requires
        0 <= i <= s.len(),
    ensures
        i <= digits_end(s, i) <= s.len(),
        forall|k: int| i <= k < digits_end(s, i) ==> is_digit(#[trigger] s[k]) || s[k] == '.',
        digits_end(s, i) < s.len() ==> !(is_digit(s[digits_end(s, i)]) || s[digits_end(s, i)] == '.'),
    decreases s.len() - i,
{
    if i < s.len() && (is_digit(s[i]) || s[i] == '.') {
        lemma_digits_end(s, i + 1);
    }
}

proof fn lemma_string_literal(s: Seq<char>, i: int)
    requires
        0 <= i,
    ensures
        string_literal(s, i) matches Some((_, j)) ==> i < j <= s.len(),
    decreases s.len() - i,
{
    if i < s.len() && s[i] != '"' {
        if s[i] == '\\' {
            if i + 1 < s.len() {
                lemma_string_literal(s, i + 2);
            }
        } else {
            lemma_string_literal(s, i + 1);
        }
    }
}

/// Every step moves forward and stays within the text.
proof fn lemma_lex_step_advances(s: Seq<char>, i: int)
    requires
        0 <= i < s.len(),
    ensures
        match lex_step(s, i) {
            LexStep::Skip(j) => i < j <= s.len(),
            LexStep::Emit(_, j) => i < j <= s.len(),
            _ => true,
        },
{
    let c = s[i];
    lemma_line_end(s, i + 1);
    lemma_string_literal(s, i + 1);
    lemma_word_end(s, i);
    if i + 1 <= s.len() {
        lemma_word_end(s, i + 1);
        lemma_digits_end(s, i + 1);
    }
    lemma_digits_end(s, i);
    let j0 = digits_end(s, i);
    if j0 <= s.len() {
        lemma_word_end(s, j0);
    }
    let j1 = digits_end(s, i + 1);
    if j1 <= s.len() {
        lemma_word_end(s, j1);
    }
}


pub(crate) fn is_white_char(c: char) -> (b: bool)
    ensures
        b == is_white(c),
{
    ('\u{9}' <= c && c <= '\u{d}') || c == ' ' || c == '\u{85}' || c == '\u{a0}' || c == '\u{1680}'
        || ('\u{2000}' <= c && c <= '\u{200a}') || c == '\u{2028}' || c == '\u{2029}' || c
        == '\u{202f}' || c == '\u{205f}' || c == '\u{3000}'
}

fn ends_word_char(c: char) -> (b: bool)
    ensures
        b == ends_word(c),
{
    is_white_char(c) || c == '(' || c == ')' || c == '"' || c == '\'' || c == ';'
}

fn is_digit_char(c: char) -> (b: bool)
    ensures
        b == is_digit(c),
{
    '0' <= c && c <= '9'
}

fn scan_word_end(s: &Vec<char>, i: usize) -> (j: usize)
    requires
        i <= s@.len(),
    ensures
        j == word_end(s@, i as int),
{
    let mut j = i;
    while j < s.len() && !ends_word_char(s[j])
        invariant
            i <= j <= s@.len(),
            word_end(s@, i as int) == word_end(s@, j as int),
        decreases s.len() - j,
    {
        j = j + 1;
    }
    j
}

fn scan_line_end(s: &Vec<char>, i: usize) -> (j: usize)
    requires
        i <= s@.len(),
    ensures
        j == line_end(s@, i as int),
{
    let mut j = i;
    while j < s.len() && s[j] != '\n'
        invariant
            i <= j <= s@.len(),
            line_end(s@, i as int) == line_end(s@, j as int),
        decreases s.len() - j,
    {
        j = j + 1;
    }
    j
}

fn scan_digits_end(s: &Vec<char>, i: usize) -> (j: usize)
    requires
        i <= s@.len(),
    ensures
        j == digits_end(s@, i as int),
{
    let mut j = i;
    while j < s.len() && (is_digit_char(s[j]) || s[j] == '.')
        invariant
            i <= j <= s@.len(),
            digits_end(s@, i as int) == digits_end(s@, j as int),
        decreases s.len() - j,
    {
        j = j + 1;
    }
    j
}

fn push_unescaped(out: &mut Vec<char>, c: char)
    ensures
        final(out)@ == old(out)@ + unescape(c),
{
    if c == 'n' {
        out.push('\n');
    } else if c == 't' {
        out.push('\t');
    } else if c == 'r' {
        out.push('\r');
    } else if c == '\\' {
        out.push('\\');
    } else if c == '"' {
        out.push('"');
    } else {
        out.push('\\');
        out.push(c);
    }
}

fn scan_string(s: &Vec<char>, start: usize) -> (r: Option<(String, usize)>)
    requires
        start <= s@.len(),
    ensures
        match string_literal(s@, start as int) {
            Some((body, j)) => r matches Some((b, k)) && b@ == body && k == j,
            None => r is None,
        },
{
    let mut acc: Vec<char> = Vec::new();
    let mut i = start;
    while i < s.len()
        invariant
            start <= i <= s@.len(),
            string_literal(s@, start as int) == match string_literal(s@, i as int) {
                Some((b, j)) => Some((acc@ + b, j)),
                None => None,
            },
        decreases s.len() - i,
    {
        let c = s[i];
        if c == '"' {
            assert(acc@ + Seq::<char>::empty() =~= acc@);
            let body = string_from_chars(&acc);
            return Some((body, i + 1));
        } else if c == '\\' {
            if i + 1 >= s.len() {
                return None;
            }
            let ghost before = acc@;
            push_unescaped(&mut acc, s[i + 1]);
            proof {
                match string_literal(s@, i + 2) {
                    Some((b, j)) => {
                        assert(before + (unescape(s@[i + 1]) + b) =~= acc@ + b);
                    },
                    None => {},
                }
            }
            i = i + 2;
        } else {
            let ghost before = acc@;
            acc.push(c);
            proof {
                match string_literal(s@, i + 1) {
                    Some((b, j)) => {
                        assert(before + (seq![c] + b) =~= acc@ + b);
                    },
                    None => {},
                }
            }
            i = i + 1;
        }
    }
    None
}

/// The characters of `s` from `a` to `b`, as a string.
fn slice_string(s: &Vec<char>, a: usize, b: usize) -> (r: String)
    requires
        a <= b <= s@.len(),
    ensures
        r@ == s@.subrange(a as int, b as int),
{
    let mut out: Vec<char> = Vec::new();
    let mut i = a;
    while i < b
        invariant
            a <= i <= b <= s@.len(),
            out@ == s@.subrange(a as int, i as int),
        decreases b - i,
    {
        out.push(s[i]);
        i = i + 1;
        assert(out@ =~= s@.subrange(a as int, i as int));
    }
    string_from_chars(&out)
}

proof fn lemma_count_dots_prefix(t: Seq<char>, i: int)
    requires
        0 <= i < t.len(),
    ensures
        count_dots(t.take(i + 1)) == count_dots(t.take(i)) + if t[i] == '.' { 1nat } else { 0nat },
{
    assert(t.take(i + 1).drop_last() =~= t.take(i));
}

fn valid_number_chars(t: &Vec<char>) -> (b: bool)
    ensures
        b == valid_number(t@),
{
    if t.len() == 0 {
        return false;
    }
    let st: usize = if t[0] == '+' || t[0] == '-' { 1 } else { 0 };
    let ghost u = unsigned_part(t@);
    assert(u =~= t@.subrange(st as int, t@.len() as int));
    if st >= t.len() {
        return false;
    }
    let mut dots: usize = 0;
    let mut all_ok = true;
    let mut i = st;
    while i < t.len()
        invariant
            st <= i <= t@.len(),
            u == t@.subrange(st as int, t@.len() as int),
            dots == count_dots(u.take(i - st)),
            dots <= i - st,
            all_ok == forall|k: int| 0 <= k < i - st ==> is_digit(#[trigger] u[k]) || u[k] == '.',
        decreases t.len() - i,
    {
        proof {
            lemma_count_dots_prefix(u, i - st);
        }
        let c = t[i];
        if c == '.' {
            dots = dots + 1;
        }
        if !(is_digit_char(c) || c == '.') {
            all_ok = false;
        }
        i = i + 1;
        proof {
            assert(u[i - 1 - st] == c);
        }
    }
    assert(u.take(u.len() as int) =~= u);
    assert(u.last() == t@[t@.len() - 1]);
    assert(u[0] == t@[st as int]);
    assert(i - st == u.len());
    assert(dots == count_dots(u));
    dots <= 1 && t[t.len() - 1] != '.' && t[st] != '.' && all_ok
}

/// Whether a text is a number literal: an optional sign, then digits with at
/// most one dot, neither first nor last.
pub fn is_valid_number(s: &str) -> (b: bool)
    ensures
        b == valid_number(s@),
{
    let t = chars_of(s);
    valid_number_chars(&t)
}

fn scan_numeric_tail(s: &Vec<char>, start: usize, k: usize) -> (r: (Lexeme, usize))
    requires
        start <= k <= s@.len(),
    ensures
        (r.0@, r.1 as int) == numeric_tail(s@, start as int, k as int),
{
    let j = scan_digits_end(s, k);
    proof {
        lemma_digits_end(s@, k as int);
    }
    if j < s.len() && !ends_word_char(s[j]) {
        let e = scan_word_end(s, j);
        proof {
            lemma_word_end(s@, j as int);
        }
        (Lexeme::Symbol(slice_string(s, start, e)), e)
    } else {
        let t = slice_string(s, start, j);
        let chars = chars_of(t.as_str());
        if valid_number_chars(&chars) {
            (Lexeme::Numeral(t), j)
        } else {
            (Lexeme::Symbol(t), j)
        }
    }
}

fn scan_numeric(s: &Vec<char>, i: usize) -> (r: (Lexeme, usize))
    requires
        i < s@.len(),
    ensures
        (r.0@, r.1 as int) == numeric_lexeme(s@, i as int),
{
    let len = s.len();
    assert(i + 1 <= len);
    let c = s[i];
    if c == '+' || c == '-' {
        if i + 1 < s.len() {
            let n = s[i + 1];
            if !is_digit_char(n) && n != '.' {
                if !ends_word_char(n) {
                    let j = scan_word_end(s, i + 1);
                    proof {
                        lemma_word_end(s@, i + 1);
                    }
                    (Lexeme::Symbol(slice_string(s, i, j)), j)
                } else {
                    let mut v: Vec<char> = Vec::new();
                    v.push(c);
                    (Lexeme::Symbol(string_from_chars(&v)), i + 1)
                }
            } else {
                scan_numeric_tail(s, i, i + 1)
            }
        } else {
            let mut v: Vec<char> = Vec::new();
            v.push(c);
            (Lexeme::Symbol(string_from_chars(&v)), i + 1)
        }
    } else if c == '.' {
        if i + 1 < s.len() && is_digit_char(s[i + 1]) {
            scan_numeric_tail(s, i, i + 1)
        } else {
            let mut v: Vec<char> = Vec::new();
            v.push('.');
            (Lexeme::Symbol(string_from_chars(&v)), i + 1)
        }
    } else {
        scan_numeric_tail(s, i, i)
    }
}

/// One step of the scanner.
enum Step {
    Done,
    Skip(usize),
    Emit(Lexeme, usize),
    Fail(RispyError),
}

spec fn step_view(r: Step) -> LexStep {
    match r {
        Step::Done => LexStep::Done,
        Step::Skip(j) => LexStep::Skip(j as int),
        Step::Emit(t, j) => LexStep::Emit(t@, j as int),
        Step::Fail(e) => LexStep::Fail(e@),
    }
}

fn scan_step(s: &Vec<char>, i: usize) -> (r: Step)
    requires
        i <= s@.len(),
    ensures
        step_view(r) == lex_step(s@, i as int),
{
    if i >= s.len() {
        return Step::Done;
    }
    let c = s[i];
    if c == ' ' || c == '\t' || c == '\n' || c == '\r' {
        Step::Skip(i + 1)
    } else if c == ';' {
        Step::Skip(scan_line_end(s, i + 1))
    } else if c == '(' {
        Step::Emit(Lexeme::LeftParen, i + 1)
    } else if c == ')' {
        Step::Emit(Lexeme::RightParen, i + 1)
    } else if c == '\'' {
        Step::Emit(Lexeme::Quote, i + 1)
    } else if c == '"' {
        match scan_string(s, i + 1) {
            Some((body, j)) => Step::Emit(Lexeme::Text(body), j),
            None => Step::Fail(RispyError::LexError(owned("Unterminated string literal"))),
        }
    } else if is_digit_char(c) || c == '-' || c == '+' || c == '.' {
        let (t, j) = scan_numeric(s, i);
        Step::Emit(t, j)
    } else {
        let j = scan_word_end(s, i);
        proof {
            lemma_word_end(s@, i as int);
        }
        if j == i {
            let mut v: Vec<char> = Vec::new();
            v.push(c);
            let cs = string_from_chars(&v);
            Step::Fail(RispyError::LexError(join("Unexpected character: ", cs.as_str())))
        } else {
            Step::Emit(Lexeme::Symbol(slice_string(s, i, j)), j)
        }
    }
}

/// The lexemes of a text, or the error that stops the scan.
pub fn scan(input: &str) -> (r: Result<Vec<Lexeme>, RispyError>)
    ensures
        match r {
            Ok(ls) => lex(input@) == Ok::<Seq<LexemeView>, ErrorView>(ls@.map_values(|l: Lexeme| l@)),
            Err(e) => lex(input@) == Err::<Seq<LexemeView>, ErrorView>(e@),
        },
{
    let s = chars_of(input);
    let mut out: Vec<Lexeme> = Vec::new();
    let mut i: usize = 0;
    while i < s.len()
        invariant
            i <= s@.len(),
            s@ == input@,
            lex_from(s@, 0) == match lex_from(s@, i as int) {
                Ok(rest) => Ok(out@.map_values(|l: Lexeme| l@) + rest),
                Err(e) => Err(e),
            },
        decreases s.len() - i,
    {
        proof {
            lemma_lex_step_advances(s@, i as int);
        }
        let ghost done = out@.map_values(|l: Lexeme| l@);
        match scan_step(&s, i) {
            Step::Done => {
                i = s.len();
            },
            Step::Skip(j) => {
                i = j;
            },
            Step::Emit(t, j) => {
                let ghost tv = t@;
                out.push(t);
                proof {
                    assert(out@.map_values(|l: Lexeme| l@) =~= done.push(tv));
                    match lex_from(s@, j as int) {
                        Ok(rest) => {
                            assert(done + (seq![tv] + rest) =~= done.push(tv) + rest);
                        },
                        Err(e) => {},
                    }
                }
                i = j;
            },
            Step::Fail(e) => {
                return Err(e);
            },
        }
    }
    assert(out@.map_values(|l: Lexeme| l@) + Seq::<LexemeView>::empty() =~= out@.map_values(|l: Lexeme| l@));
    Ok(out)
}

/// The token a lexeme becomes, numerals read by the host `h`; `None` for a
/// numeral the host cannot read.
pub open spec fn token_of<A: Arithmetic>(l: LexemeView, h: A) -> Option<TokenView> {
    match l {
        LexemeView::LeftParen => Some(TokenView::LeftParen),
        LexemeView::RightParen => Some(TokenView::RightParen),
        LexemeView::Quote => Some(TokenView::Quote),
        LexemeView::Symbol(s) => Some(TokenView::Symbol(s)),
        LexemeView::Text(s) => Some(TokenView::Str(s)),
        LexemeView::Numeral(t) => match h.spec_read(t) {
            Some(n) => Some(TokenView::Number(n)),
            None => None,
        },
    }
}

/// The error for a numeral the host cannot read.
pub open spec fn invalid_number_error(t: Seq<char>) -> ErrorView {
    ErrorView::Lex("Invalid number: "@ + t)
}

/// The tokens of the text from position `i` on, numerals read by the host as
/// they are met; the first error met stops the scan.
pub open spec fn tokens_from<A: Arithmetic>(s: Seq<char>, i: int, h: A) -> Result<Seq<TokenView>, ErrorView>
    decreases s.len() - i,
{
    match lex_step(s, i) {
        LexStep::Done => Ok(seq![]),
        LexStep::Skip(j) => if i < j <= s.len() {
            tokens_from(s, j, h)
        } else {
            Ok(seq![])
        },
        LexStep::Emit(l, j) => if i < j <= s.len() {
            match token_of(l, h) {
                Some(t) => match tokens_from(s, j, h) {
                    Ok(rest) => Ok(seq![t] + rest),
                    Err(e) => Err(e),
                },
                None => Err(invalid_number_error(l->Numeral_0)),
            }
        } else {
            Ok(seq![])
        },
        LexStep::Fail(e) => Err(e),
    }
}

/// The tokens of a whole text.
pub open spec fn tokenize_spec<A: Arithmetic>(s: Seq<char>, h: A) -> Result<Seq<TokenView>, ErrorView> {
    tokens_from(s, 0, h)
}

/// Tokens as mathematical values.
pub open spec fn tokens_view(ts: Seq<Token>) -> Seq<TokenView> {
    ts.map_values(|t: Token| t@)
}

/// A tokenizing outcome as a mathematical value.
pub open spec fn tokens_result(r: Result<Vec<Token>, RispyError>) -> Result<Seq<TokenView>, ErrorView> {
    match r {
        Ok(ts) => Ok(tokens_view(ts@)),
        Err(e) => Err(e@),
    }
}

/// The tokens of a text. Numerals are read as numbers by `arith`; a numeral it
/// cannot read is an error.
pub fn tokenize<A: Arithmetic>(input: &str, arith: &A) -> (r: Result<Vec<Token>, RispyError>)
    ensures
        tokens_result(r) == tokenize_spec(input@, *arith),
{
    let s = chars_of(input);
    let mut out: Vec<Token> = Vec::new();
    let mut i: usize = 0;
    while i < s.len()
        invariant
            i <= s@.len(),
            s@ == input@,
            tokens_from(s@, 0, *arith) == match tokens_from(s@, i as int, *arith) {
                Ok(rest) => Ok(tokens_view(out@) + rest),
                Err(e) => Err(e),
            },
        decreases s.len() - i,
    {
        proof {
            lemma_lex_step_advances(s@, i as int);
        }
        match scan_step(&s, i) {
            Step::Done => {
                i = s.len();
            },
            Step::Skip(j) => {
                i = j;
            },
            Step::Emit(t, j) => {
                let ghost tv = t@;
                let tok = match t {
                    Lexeme::LeftParen => Token::LeftParen,
                    Lexeme::RightParen => Token::RightParen,
                    Lexeme::Quote => Token::Quote,
                    Lexeme::Symbol(x) => Token::Symbol(x),
                    Lexeme::Text(x) => Token::String(x),
                    Lexeme::Numeral(x) => {
                        match arith.read_decimal(x.as_str()) {
                            Some(n) => Token::Number(n),
                            None => {
                                return Err(RispyError::LexError(join("Invalid number: ", x.as_str())));
                            },
                        }
                    },
                };
                assert(token_of(tv, *arith) == Some(tok@));
                let ghost before = tokens_view(out@);
                out.push(tok);
                proof {
                    assert(tokens_view(out@) =~= before.push(tok@));
                    match tokens_from(s@, j as int, *arith) {
                        Ok(rest) => {
                            assert(before + (seq![tok@] + rest) =~= tokens_view(out@) + rest);
                        },
                        Err(e) => {},
                    }
                }
                i = j;
            },
            Step::Fail(e) => {
                return Err(e);
            },
        }
    }
    assert(tokens_view(out@) + Seq::<TokenView>::empty() =~= tokens_view(out@));
    Ok(out)
}


proof fn lemma_escape_append(a: Seq<char>, b: Seq<char>)
    ensures
        escape(a + b) == escape(a) + escape(b),
    decreases b.len(),
{
    if b.len() == 0 {
        assert(a + b =~= a);
        assert(escape(a) + escape(b) =~= escape(a));
    } else {
        lemma_escape_append(a, b.drop_last());
        assert((a + b).drop_last() =~= a + b.drop_last());
        assert(escape(a + b) =~= escape(a) + escape(b));
    }
}

/// Reading the body of an escaped string literal from any point gives back
/// the rest of the string.
proof fn lemma_string_literal_escaped(s: Seq<char>, k: int)
    requires
        0 <= k <= s.len(),
    ensures
        ({
            let full = seq!['"'] + escape(s) + seq!['"'];
            string_literal(full, (1 + escape(s.take(k)).len()) as int) == Some((s.skip(k), full.len() as int))
        }),
    decreases s.len() - k,
{
    let full = seq!['"'] + escape(s) + seq!['"'];
    let p = (1 + escape(s.take(k)).len()) as int;
    lemma_escape_append(s.take(k), s.skip(k));
    assert(s.take(k) + s.skip(k) =~= s);
    if k == s.len() {
        assert(s.skip(k) =~= Seq::<char>::empty());
        assert(escape(s.skip(k)) =~= Seq::<char>::empty());
        assert(full[p] == '"');
    } else {
        lemma_string_literal_escaped(s, k + 1);
        let c = s[k];
        assert(s.take(k + 1).drop_last() =~= s.take(k));
        assert(s.take(k + 1).last() == c);
        let e = escape_char(c);
        assert(escape(s.take(k + 1)) == escape(s.take(k)) + e);
        assert(s.skip(k) =~= seq![c] + s.skip(k + 1));
        let q = (1 + escape(s.take(k + 1)).len()) as int;
        assert(q == p + e.len());
        assert(full =~= seq!['"'] + escape(s.take(k)) + escape(s.skip(k)) + seq!['"']);
        lemma_escape_append(seq![c], s.skip(k + 1));
        assert(escape(seq![c]) =~= e) by {
            assert(seq![c].drop_last() =~= Seq::<char>::empty());
            assert(seq![c].last() == c);
            assert(escape(Seq::<char>::empty()) =~= Seq::<char>::empty());
            assert(escape(seq![c]) == escape(Seq::<char>::empty()) + escape_char(c));
        }
        assert(escape(s.skip(k)) == e + escape(s.skip(k + 1)));
        assert(full[p] == e[0]);
        if e.len() == 2 {
            assert(full[p + 1] == e[1]);
        }
        assert(unescape(e[e.len() - 1]) =~= seq![c] || e.len() == 1);
    }
}

/// A string printed as a literal (quotes around its escaped form) is read
/// back as that same string.
pub proof fn law_string_literal_round_trip(s: Seq<char>)
    ensures
        lex(seq!['"'] + escape(s) + seq!['"']) == Ok::<Seq<LexemeView>, ErrorView>(seq![LexemeView::Text(s)]),
{
    let full = seq!['"'] + escape(s) + seq!['"'];
    lemma_string_literal_escaped(s, 0);
    assert(s.take(0) =~= Seq::<char>::empty());
    assert(escape(s.take(0)) =~= Seq::<char>::empty());
    assert(s.skip(0) =~= s);
    assert(full[0] == '"');
    assert(lex_from(full, full.len() as int) == Ok::<Seq<LexemeView>, ErrorView>(seq![]));
    assert(seq![LexemeView::Text(s)] + Seq::<LexemeView>::empty() =~= seq![LexemeView::Text(s)]);
}

/// The token a lexeme other than a numeral becomes.
pub open spec fn plain_token(l: LexemeView) -> TokenView {
    match l {
        LexemeView::LeftParen => TokenView::LeftParen,
        LexemeView::RightParen => TokenView::RightParen,
        LexemeView::Quote => TokenView::Quote,
        LexemeView::Symbol(s) => TokenView::Symbol(s),
        LexemeView::Text(s) => TokenView::Str(s),
        LexemeView::Numeral(_) => TokenView::LeftParen,
    }
}

/// A text whose lexemes hold no numeral has those lexemes as its tokens,
/// whatever the host.
pub proof fn law_tokens_without_numerals<A: Arithmetic>(s: Seq<char>, i: int, h: A)
    requires
        lex_from(s, i) matches Ok(ls) && forall|k: int| 0 <= k < ls.len() ==> !(#[trigger] ls[k] is Numeral),
    ensures
        tokens_from(s, i, h) == Ok::<Seq<TokenView>, ErrorView>(lex_from(s, i)->Ok_0.map_values(|l: LexemeView| plain_token(l))),
    decreases s.len() - i,
{
    let ls = lex_from(s, i)->Ok_0;
    match lex_step(s, i) {
        LexStep::Done => {
            assert(ls.map_values(|l: LexemeView| plain_token(l)) =~= Seq::<TokenView>::empty());
        },
        LexStep::Skip(j) => {
            if i < j <= s.len() {
                law_tokens_without_numerals(s, j, h);
            } else {
                assert(ls.map_values(|l: LexemeView| plain_token(l)) =~= Seq::<TokenView>::empty());
            }
        },
        LexStep::Emit(l, j) => {
            if i < j <= s.len() {
                let rest = lex_from(s, j)->Ok_0;
                assert(ls == seq![l] + rest);
                assert(ls[0] == l);
                assert forall|k: int| 0 <= k < rest.len() implies !(#[trigger] rest[k] is Numeral) by {
                    assert(ls[k + 1] == rest[k]);
                }
                law_tokens_without_numerals(s, j, h);
                assert(ls.map_values(|x: LexemeView| plain_token(x)) =~= seq![plain_token(l)] + rest.map_values(|x: LexemeView| plain_token(x)));
            } else {
                assert(ls.map_values(|l: LexemeView| plain_token(l)) =~= Seq::<TokenView>::empty());
            }
        },
        LexStep::Fail(_) => {},
    }
}
} // verus!
