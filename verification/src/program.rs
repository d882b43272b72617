use vstd::prelude::*;
use crate::environment::Environment;
use crate::error::{ErrorView, RispyError};
use crate::eval::{create_global_environment_with_macros, eval_outcome, eval_with_macros, global_env, state_of, EvalState, MAX_EVAL_DEPTH};
use crate::lexer::{is_white, is_white_char, tokenize, tokenize_spec, tokens_view};
use crate::macros::MacroExpander;
use crate::number::Arithmetic;
use crate::text::{chars_of, string_from_chars, string_is};
use crate::parser::{parse, parse_tokens};
use crate::value::{lemma_strings_push, lemma_values_view, render_in, strings_view, values_view, Value, ValueView};

verus! {

/// A run's outcome as a mathematical value.
pub open spec fn run_view(r: Result<(), RispyError>) -> Result<(), ErrorView> {
    match r {
        Ok(()) => Ok(()),
        Err(e) => Err(e@),
    }
}

/// The expressions `exprs` evaluated in turn from `st`, each after macro
/// expansion: each prints its lines and then its result, as the host `h`
/// prints it; the first error stops the run and is its outcome.
pub open spec fn run_exprs<A: Arithmetic>(st: EvalState, exprs: Seq<ValueView>, h: A) -> (Result<(), ErrorView>, EvalState)
    decreases exprs.len(),
{
    if exprs.len() == 0 {
        (Ok(()), st)
    } else {
        let (r, st1) = eval_outcome(MAX_EVAL_DEPTH as nat, st, exprs[0], h);
        match r {
            Err(x) => (Err(x), st1),
            Ok(v) => run_exprs(EvalState { printed: st1.printed.push(render_in(v, h)), ..st1 }, exprs.drop_first(), h),
        }
    }
}

/// A text tokenized (numerals read by `h`), parsed, and its expressions run
/// from `st`; an error in tokenizing or parsing leaves `st` as it was.
pub open spec fn run_source<A: Arithmetic>(source: Seq<char>, st: EvalState, h: A) -> (Result<(), ErrorView>, EvalState) {
    match tokenize_spec(source, h) {
        Err(x) => (Err(x), st),
        Ok(ts) => match parse_tokens(ts) {
            Err(x) => (Err(x), st),
            Ok(exprs) => run_exprs(st, exprs, h),
        },
    }
}

fn run_from<A: Arithmetic>(
    exprs: &Vec<Value>,
    i: usize,
    env: &mut Environment,
    macro_expander: &mut MacroExpander,
    arith: &A,
    output: &mut Vec<String>,
) -> (r: Result<(), RispyError>)
    requires
        i <= exprs@.len(),
        old(env).wf(),
        old(macro_expander).wf(),
    ensures
        final(env).wf(),
        final(macro_expander).wf(),
        final(env)@.current == old(env)@.current,
        run_exprs(state_of(old(env)@, old(macro_expander).macros(), old(output)@), values_view(exprs@).skip(i as int), *arith)
            == (run_view(r), state_of(final(env)@, final(macro_expander).macros(), final(output)@)),
    decreases exprs@.len() - i,
{
    proof {
        lemma_values_view(exprs@);
    }
    let ghost xs = values_view(exprs@).skip(i as int);
    if i == exprs.len() {
        assert(xs.len() == 0);
        return Ok(());
    }
    assert(xs[0] == exprs@[i as int]@);
    let res = eval_with_macros(&exprs[i], env, macro_expander, arith, output);
    match res {
        Err(e) => Err(e),
        Ok(v) => {
            let line = v.display(arith);
            let ghost out_mid = output@;
            output.push(line);
            proof {
                assert(output@.drop_last() =~= out_mid);
                lemma_strings_push(out_mid, output@);
                assert(xs.drop_first() =~= values_view(exprs@).skip(i + 1));
            }
            run_from(exprs, i + 1, env, macro_expander, arith, output)
        },
    }
}

/// Tokenizes, parses and evaluates a text in `env`, with the macros of
/// `macro_expander`, as the interactive loop does with each line: every
/// expression's result is printed (appended to `output`) after the lines it
/// printed itself; the first error stops.
pub fn execute_repl_input<A: Arithmetic>(
    source: &str,
    env: &mut Environment,
    macro_expander: &mut MacroExpander,
    arith: &A,
    output: &mut Vec<String>,
) -> (r: Result<(), RispyError>)
    requires
        old(env).wf(),
        old(macro_expander).wf(),
    ensures
        final(env).wf(),
        final(macro_expander).wf(),
        final(env)@.current == old(env)@.current,
        run_source(source@, state_of(old(env)@, old(macro_expander).macros(), old(output)@), *arith)
            == (run_view(r), state_of(final(env)@, final(macro_expander).macros(), final(output)@)),
{
    let tokens = match tokenize(source, arith) {
        Ok(ts) => ts,
        Err(e) => {
            return Err(e);
        },
    };
    let ghost ts = tokens_view(tokens@);
    let exprs = match parse(tokens) {
        Ok(xs) => xs,
        Err(e) => {
            return Err(e);
        },
    };
    assert(values_view(exprs@).skip(0) =~= values_view(exprs@));
    run_from(&exprs, 0, env, macro_expander, arith, output)
}

/// Tokenizes, parses and evaluates a whole program in a fresh global
/// environment with no macros: every expression's result is printed (appended
/// to `output`) after the lines it printed itself; the first error stops.
pub fn execute_program<A: Arithmetic>(source: &str, arith: &A, output: &mut Vec<String>) -> (r: Result<(), RispyError>)
    ensures
        ({
            let start = EvalState { env: global_env(), macros: seq![Map::empty()], printed: strings_view(old(output)@) };
            let (res, st) = run_source(source@, start, *arith);
            &&& res == run_view(r)
            &&& st.printed == strings_view(final(output)@)
        }),
{
    let (mut env, mut macro_expander) = create_global_environment_with_macros();
    execute_repl_input(source, &mut env, &mut macro_expander, arith, output)
}

/// The first position at or after `i` that holds no white space.
pub open spec fn lead_end(s: Seq<char>, i: int) -> int
    decreases s.len() - i,
{
    if i < 0 || i >= s.len() || !is_white(s[i]) {
        i
    } else {
        lead_end(s, i + 1)
    }
}

/// The position just after the last character before `j` that is no white
/// space (0 where there is none).
pub open spec fn tail_start(s: Seq<char>, j: int) -> int
    decreases j,
{
    if j <= 0 || j > s.len() || !is_white(s[j - 1]) {
        j
    } else {
        tail_start(s, j - 1)
    }
}

/// A text without its leading and trailing (Unicode) white space.
pub open spec fn trim_white(s: Seq<char>) -> Seq<char> {
    let a = lead_end(s, 0);
    let b = tail_start(s, s.len() as int);
    if a < b {
        s.subrange(a, b)
    } else {
        seq![]
    }
}

/// What the interactive loop does after a line: stop, or go on after the
/// line's outcome.
pub enum ReplOutcome {
    Quit,
    Continue(Result<(), RispyError>),
}

/// A line's outcome as a mathematical value: `None` for stopping.
pub open spec fn outcome_view(r: ReplOutcome) -> Option<Result<(), ErrorView>> {
    match r {
        ReplOutcome::Quit => None,
        ReplOutcome::Continue(x) => Some(run_view(x)),
    }
}

/// `line` without its leading and trailing white space.
fn trim_line(line: &str) -> (t: String)
    ensures
        t@ == trim_white(line@),
{
    let s = chars_of(line);
    let n = s.len();
    let mut a: usize = 0;
    while a < n && is_white_char(s[a])
        invariant
            a <= n,
            n == s@.len(),
            s@ == line@,
            lead_end(s@, 0) == lead_end(s@, a as int),
        decreases n - a,
    {
        a = a + 1;
    }
    let mut b: usize = n;
    while b > 0 && is_white_char(s[b - 1])
        invariant
            b <= n,
            n == s@.len(),
            s@ == line@,
            tail_start(s@, n as int) == tail_start(s@, b as int),
        decreases b,
    {
        b = b - 1;
    }
    let mut kept: Vec<char> = Vec::new();
    if a < b {
        let mut i: usize = a;
        while i < b
            invariant
                a <= i <= b,
                b <= n,
                n == s@.len(),
                kept@ == s@.subrange(a as int, i as int),
            decreases b - i,
        {
            kept.push(s[i]);
            i = i + 1;
        }
    }
    assert(kept@ =~= trim_white(s@));
    string_from_chars(&kept)
}

/// One line of the interactive loop. The line is taken without its leading
/// and trailing white space: "exit" or "quit" stops the loop, an empty line
/// does nothing, and any other text is run in `env` with the macros of
/// `macro_expander`, as `execute_repl_input` runs it; the loop goes on after
/// an error.
pub fn repl_line<A: Arithmetic>(
    line: &str,
    env: &mut Environment,
    macro_expander: &mut MacroExpander,
    arith: &A,
    output: &mut Vec<String>,
) -> (r: ReplOutcome)
    requires
        old(env).wf(),
        old(macro_expander).wf(),
    ensures
        final(env).wf(),
        final(macro_expander).wf(),
        final(env)@.current == old(env)@.current,
        ({
            let t = trim_white(line@);
            if t == "exit"@ || t == "quit"@ {
                &&& r is Quit
                &&& final(env)@ == old(env)@
                &&& final(macro_expander).macros() == old(macro_expander).macros()
                &&& final(output)@ == old(output)@
            } else if t.len() == 0 {
                &&& outcome_view(r) == Some(Ok::<(), ErrorView>(()))
                &&& final(env)@ == old(env)@
                &&& final(macro_expander).macros() == old(macro_expander).macros()
                &&& final(output)@ == old(output)@
            } else {
                &&& r is Continue
                &&& run_source(t, state_of(old(env)@, old(macro_expander).macros(), old(output)@), *arith)
                    == (outcome_view(r)->Some_0, state_of(final(env)@, final(macro_expander).macros(), final(output)@))
            }
        }),
{
    let input = trim_line(line);
    if string_is(&input, "exit") || string_is(&input, "quit") {
        return ReplOutcome::Quit;
    }
    proof {
        reveal_strlit("");
    }
    if string_is(&input, "") {
        return ReplOutcome::Continue(Ok(()));
    }
    assert(input@.len() != 0) by {
        if input@.len() == 0 {
            assert(input@ =~= ""@);
        }
    }
    let r = execute_repl_input(input.as_str(), env, macro_expander, arith, output);
    ReplOutcome::Continue(r)
}

} // verus!
