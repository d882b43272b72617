use vstd::prelude::*;
use crate::builtins::{apply_builtin, builtin_named, builtin_outcome, lookup_builtin};
use crate::environment::{
    bind, env_assign, env_at, env_bind, env_lookup, env_ok, env_open, lemma_assign_at_shape, lookup_at, EnvView,
    Environment, MacroEnvironment,
};
use crate::error::{ErrorView, RispyError};
use crate::macros::{expand_call, expand_fix, expand_once_spec, MacroExpander};
use crate::number::Arithmetic;
use crate::text::{decimal, decimal_string, join, join3, owned, string_is};
use crate::value::{
    copy_value, is_function, is_truthy, lemma_strings_push, lemma_values_view, lemma_values_view_push, result_view,
    spec_truthy, strings_view, values_view, Function, FunctionView, MacroFunction, UserFunction, Value,
    ValueView,
};

verus! {

/// Everything evaluation reads and changes: the variables, the macros, and
/// the lines printed so far.
pub struct EvalState {
    pub env: EnvView,
    pub macros: Seq<Map<Seq<char>, FunctionView>>,
    pub printed: Seq<Seq<char>>,
}

/// The error of an evaluation nested too deeply.
pub open spec fn depth_error() -> ErrorView {
    ErrorView::Runtime("Maximum evaluation depth exceeded"@)
}

/// `st` with the variables `env`.
pub open spec fn with_env(st: EvalState, env: EnvView) -> EvalState {
    EvalState { env: env, ..st }
}

/// The names of a parameter list: `None` where it is not a list of symbols.
pub open spec fn param_names(l: Seq<ValueView>) -> Option<Seq<Seq<char>>>
    decreases l.len(),
{
    if l.len() == 0 {
        Some(seq![])
    } else {
        match (param_names(l.drop_last()), l.last()) {
            (Some(ns), ValueView::Symbol(n)) => Some(ns.push(n)),
            _ => None,
        }
    }
}

/// The checks `define-function` and `define-macro` make of their arguments,
/// and the name and parameters they find.
pub open spec fn definition_parts(form: Seq<char>, args: Seq<ValueView>) -> Result<(Seq<char>, Seq<Seq<char>>), ErrorView> {
    if args.len() != 3 {
        Err(ErrorView::Arity(form + " expects exactly 3 arguments (name params body)"@))
    } else {
        match args[0] {
            ValueView::Symbol(name) => match args[1] {
                ValueView::List(pl) => match param_names(pl) {
                    Some(ps) => Ok((name, ps)),
                    None => Err(ErrorView::Type(form + ": parameters must be symbols"@)),
                },
                _ => Err(ErrorView::Type(form + ": second argument must be a list of parameters"@)),
            },
            _ => Err(ErrorView::Type(form + ": first argument must be a symbol"@)),
        }
    }
}

/// The parameters bound to the arguments, in order, in the current scope.
pub open spec fn bind_params(env: EnvView, ps: Seq<Seq<char>>, args: Seq<ValueView>) -> EnvView
    decreases ps.len(),
{
    if ps.len() == 0 || args.len() == 0 {
        env
    } else {
        env_bind(bind_params(env, ps.drop_last(), args.drop_last()), ps.last(), args.last())
    }
}

/// The function an application calls: a symbol names a variable, or else a
/// primitive; a function value calls itself.
pub open spec fn resolve(env: EnvView, f: ValueView) -> Result<ValueView, ErrorView> {
    match f {
        ValueView::Symbol(n) => match env_lookup(env, n) {
            Some(v) => Ok(v),
            None => match builtin_named(n) {
                Some(b) => Ok(ValueView::Function(Box::new(b))),
                None => Err(ErrorView::Undefined("Undefined function: "@ + n)),
            },
        },
        ValueView::Function(_) => Ok(f),
        _ => Err(ErrorView::Type("Cannot apply non-function value"@)),
    }
}

/// The state after a primitive printed `line`, if it printed one.
pub open spec fn with_line(st: EvalState, line: Option<Seq<char>>) -> EvalState {
    match line {
        Some(t) => EvalState { printed: st.printed.push(t), ..st },
        None => st,
    }
}

/// The name a defined function is reported with.
pub open spec fn user_name(name: Option<Seq<char>>) -> Seq<char> {
    match name {
        Some(n) => n,
        None => "<anonymous>"@,
    }
}

/// The value of an expression and the state after it, with at most `fuel`
/// nested evaluations, the host `h` doing the arithmetic and the printing of
/// numbers.
pub open spec fn spec_eval<A: Arithmetic>(fuel: nat, st: EvalState, e: ValueView, h: A) -> (Result<ValueView, ErrorView>, EvalState)
    decreases fuel, 2int, 0int,
{
    if fuel == 0 {
        (Err(depth_error()), st)
    } else {
        match e {
            ValueView::Symbol(n) => match env_lookup(st.env, n) {
                Some(v) => (Ok(v), st),
                None => (Err(ErrorView::Undefined("Undefined variable: "@ + n)), st),
            },
            ValueView::List(l) => spec_eval_list(fuel, st, l, h),
            _ => (Ok(e), st),
        }
    }
}

/// A list evaluated: the empty list is itself, special forms are handled, and
/// anything else is a function application.
pub open spec fn spec_eval_list<A: Arithmetic>(fuel: nat, st: EvalState, l: Seq<ValueView>, h: A) -> (Result<ValueView, ErrorView>, EvalState)
    decreases fuel, 1int, 0int,
{
    if fuel == 0 {
        (Err(depth_error()), st)
    } else if l.len() == 0 {
        (Ok(ValueView::List(seq![])), st)
    } else {
        let args = l.drop_first();
        let f = (fuel - 1) as nat;
        match l[0] {
            ValueView::Symbol(n) => if n == "quote"@ {
                if args.len() != 1 {
                    (Err(ErrorView::Arity("quote expects exactly 1 argument"@)), st)
                } else {
                    (Ok(args[0]), st)
                }
            } else if n == "if"@ {
                if args.len() != 3 {
                    (Err(ErrorView::Arity("if expects exactly 3 arguments (condition then else)"@)), st)
                } else {
                    let (c, st1) = spec_eval(f, st, args[0], h);
                    match c {
                        Err(x) => (Err(x), st1),
                        Ok(cv) => if spec_truthy(cv) {
                            spec_eval(f, st1, args[1], h)
                        } else {
                            spec_eval(f, st1, args[2], h)
                        },
                    }
                }
            } else if n == "define"@ || n == "set!"@ {
                if args.len() != 2 {
                    (Err(ErrorView::Arity(n + " expects exactly 2 arguments (name value)"@)), st)
                } else {
                    match args[0] {
                        ValueView::Symbol(name) => {
                            let (r, st1) = spec_eval(f, st, args[1], h);
                            match r {
                                Err(x) => (Err(x), st1),
                                Ok(v) => if n == "define"@ {
                                    (Ok(ValueView::Nil), with_env(st1, env_bind(st1.env, name, v)))
                                } else {
                                    (Ok(v), with_env(st1, match env_assign(st1.env, name, v) {
                                        Some(e2) => e2,
                                        None => env_bind(st1.env, name, v),
                                    }))
                                },
                            }
                        },
                        _ => (Err(ErrorView::Type(n + ": first argument must be a symbol"@)), st),
                    }
                }
            } else if n == "define-function"@ {
                match definition_parts(n, args) {
                    Err(x) => (Err(x), st),
                    Ok((name, ps)) => (Ok(ValueView::Nil), with_env(st, env_bind(st.env, name, ValueView::Function(Box::new(
                        FunctionView::User { name: Some(name), params: ps, body: args[2], closure: st.env.current },
                    ))))),
                }
            } else if n == "define-macro"@ {
                match definition_parts(n, args) {
                    Err(x) => (Err(x), st),
                    Ok((name, ps)) => (Ok(ValueView::Nil), EvalState {
                        macros: bind(st.macros, name, FunctionView::Macro { name: name, params: ps, body: args[2] }),
                        ..st
                    }),
                }
            } else {
                spec_apply(fuel, st, l[0], args, h)
            },
            other => {
                let (r, st1) = spec_eval(f, st, other, h);
                match r {
                    Err(x) => (Err(x), st1),
                    Ok(fv) => if fv is Function {
                        spec_apply(fuel, st1, fv, args, h)
                    } else {
                        (Err(ErrorView::Type("First element of list must be a function or symbol"@)), st1)
                    },
                }
            },
        }
    }
}

/// The arguments of an application evaluated from left to right; the first
/// error stops.
pub open spec fn spec_args<A: Arithmetic>(fuel: nat, st: EvalState, l: Seq<ValueView>, h: A) -> (Result<Seq<ValueView>, ErrorView>, EvalState)
    decreases fuel, 0int, l.len(),
{
    if fuel == 0 {
        (Err(depth_error()), st)
    } else if l.len() == 0 {
        (Ok(seq![]), st)
    } else {
        let (r, st1) = spec_eval((fuel - 1) as nat, st, l[0], h);
        match r {
            Err(x) => (Err(x), st1),
            Ok(v) => {
                let (rest, st2) = spec_args(fuel, st1, l.drop_first(), h);
                match rest {
                    Ok(vs) => (Ok(seq![v] + vs), st2),
                    Err(x) => (Err(x), st2),
                }
            },
        }
    }
}

/// A function application: the arguments are evaluated, then the function is
/// found and applied. A defined function's body is evaluated in a new scope
/// binding its parameters, opened in the scope the function was defined in;
/// afterwards the caller's scope is current again.
pub open spec fn spec_apply<A: Arithmetic>(fuel: nat, st: EvalState, fe: ValueView, arg_exprs: Seq<ValueView>, h: A) -> (Result<ValueView, ErrorView>, EvalState)
    decreases fuel, 0int, arg_exprs.len() + 1,
{
    if fuel == 0 {
        (Err(depth_error()), st)
    } else {
        let (ar, st1) = spec_args(fuel, st, arg_exprs, h);
        match ar {
            Err(x) => (Err(x), st1),
            Ok(args) => match resolve(st1.env, fe) {
                Err(x) => (Err(x), st1),
                Ok(ValueView::Function(fv)) => match *fv {
                    FunctionView::Builtin { name, .. } => {
                        let (r, line) = builtin_outcome(name, args, h);
                        (r, with_line(st1, line))
                    },
                    FunctionView::User { name, params, body, closure } => if args.len() != params.len() {
                        (Err(ErrorView::Arity("Function "@ + user_name(name) + " expects "@ + decimal(params.len()) + " arguments, got "@ + decimal(args.len()))), st1)
                    } else {
                        let st2 = with_env(st1, bind_params(env_open(st1.env, closure), params, args));
                        let (r, st3) = spec_eval((fuel - 1) as nat, st2, body, h);
                        (r, with_env(st3, env_at(st3.env, st1.env.current)))
                    },
                    FunctionView::Macro { .. } => (Err(ErrorView::Runtime("Macros not yet implemented"@)), st1),
                },
                Ok(_) => (Err(ErrorView::Type("Value is not a function"@)), st1),
            },
        }
    }
}


/// The evaluation state made of an environment, macros and the lines printed.
pub open spec fn state_of(env: EnvView, macros: Seq<Map<Seq<char>, FunctionView>>, out: Seq<String>) -> EvalState {
    EvalState { env: env, macros: macros, printed: strings_view(out) }
}

fn param_names_exec(list: &Vec<Value>) -> (r: Option<Vec<String>>)
    ensures
        match param_names(values_view(list@)) {
            Some(ns) => r matches Some(v) && strings_view(v@) == ns,
            None => r is None,
        },
{
    proof {
        lemma_values_view(list@);
    }
    let ghost l = values_view(list@);
    let mut names: Vec<String> = Vec::new();
    let mut i: usize = 0;
    while i < list.len()
        invariant
            i <= list@.len(),
            l == values_view(list@),
            l.len() == list@.len(),
            forall|j: int| 0 <= j < list@.len() ==> l[j] == (#[trigger] list@[j])@,
            param_names(l.take(i as int)) == Some(strings_view(names@)),
        decreases list.len() - i,
    {
        assert(l.take(i + 1).drop_last() =~= l.take(i as int));
        match &list[i] {
            Value::Symbol(n) => {
                let ghost before = names@;
                names.push(n.clone());
                assert(strings_view(names@) =~= strings_view(before).push(n@));
            },
            _ => {
                proof {
                    lemma_param_names_prefix(l, i as int);
                }
                return None;
            },
        }
        i = i + 1;
    }
    assert(l.take(i as int) =~= l);
    Some(names)
}

proof fn lemma_param_names_prefix(l: Seq<ValueView>, i: int)
    requires
        0 <= i < l.len(),
        !(l[i] is Symbol),
    ensures
        param_names(l) is None,
    decreases l.len(),
{
    if i < l.len() - 1 {
        lemma_param_names_prefix(l.drop_last(), i);
    }
}

/// The name and parameters of a `define-function` or `define-macro` form.
fn definition_parts_exec(form: &str, list: &Vec<Value>) -> (r: Result<(String, Vec<String>), RispyError>)
    requires
        list@.len() >= 1,
    ensures
        match definition_parts(form@, values_view(list@).drop_first()) {
            Ok((name, ps)) => r matches Ok((n, v)) && n@ == name && strings_view(v@) == ps,
            Err(x) => r matches Err(e) && e@ == x,
        },
{
    proof {
        lemma_values_view(list@);
    }
    let ghost args = values_view(list@).drop_first();
    if list.len() != 4 {
        return Err(RispyError::ArityError(join(form, " expects exactly 3 arguments (name params body)")));
    }
    assert(args[0] == list@[1]@);
    assert(args[1] == list@[2]@);
    let name = match &list[1] {
        Value::Symbol(n) => n.clone(),
        _ => {
            return Err(RispyError::TypeError(join(form, ": first argument must be a symbol")));
        },
    };
    match &list[2] {
        Value::List(pl) => match param_names_exec(pl) {
            Some(ps) => Ok((name, ps)),
            None => Err(RispyError::TypeError(join(form, ": parameters must be symbols"))),
        },
        _ => Err(RispyError::TypeError(join(form, ": second argument must be a list of parameters"))),
    }
}

/// Evaluated arguments `vs` put in front of the rest of an argument list's outcome.
pub open spec fn after_args(vs: Seq<ValueView>, x: (Result<Seq<ValueView>, ErrorView>, EvalState)) -> (Result<Seq<ValueView>, ErrorView>, EvalState) {
    (match x.0 {
        Ok(rest) => Ok(vs + rest),
        Err(e) => Err(e),
    }, x.1)
}

proof fn lemma_after_args(vs: Seq<ValueView>, v: ValueView, x: (Result<Seq<ValueView>, ErrorView>, EvalState))
    ensures
        after_args(vs, after_args(seq![v], x)) == after_args(vs.push(v), x),
{
    match x.0 {
        Ok(r) => {
            assert(vs + (seq![v] + r) =~= vs.push(v) + r);
        },
        Err(_) => {},
    }
}

/// How deeply evaluations nest at most when no depth is given; deeper
/// evaluation stops with an error.
pub const MAX_EVAL_DEPTH: u64 = 100_000;

fn eval_runtime<A: Arithmetic>(
    expr: &Value,
    env: &mut Environment,
    mx: &mut MacroExpander,
    arith: &A,
    output: &mut Vec<String>,
    fuel: u64,
) -> (res: Result<Value, RispyError>)
    requires
        old(env).wf(),
        old(mx).wf(),
    ensures
        final(env).wf(),
        final(mx).wf(),
        final(env)@.current == old(env)@.current,
        final(env)@.vars.len() >= old(env)@.vars.len(),
        final(mx).counter() == old(mx).counter(),
        spec_eval(fuel as nat, state_of(old(env)@, old(mx).macros(), old(output)@), expr@, *arith)
            == (result_view(res), state_of(final(env)@, final(mx).macros(), final(output)@)),
    decreases fuel, 2int, 0int,
{
    if fuel == 0 {
        return Err(RispyError::RuntimeError(owned("Maximum evaluation depth exceeded")));
    }
    match expr {
        Value::Symbol(name) => match env.get(name.as_str()) {
            Some(v) => Ok(v),
            None => Err(RispyError::UndefinedSymbol(join("Undefined variable: ", name.as_str()))),
        },
        Value::List(list) => {
            let ghost st0 = state_of(env@, mx.macros(), output@);
            let r = eval_list(list, env, mx, arith, output, fuel);
            assert(expr@ == ValueView::List(values_view(list@)));
            assert(spec_eval_list(fuel as nat, st0, values_view(list@), *arith) == (result_view(r), state_of(env@, mx.macros(), output@)));
            r
        },
        _ => Ok(copy_value(expr)),
    }
}

fn eval_list<A: Arithmetic>(
    list: &Vec<Value>,
    env: &mut Environment,
    mx: &mut MacroExpander,
    arith: &A,
    output: &mut Vec<String>,
    fuel: u64,
) -> (res: Result<Value, RispyError>)
    requires
        old(env).wf(),
        old(mx).wf(),
        fuel > 0,
    ensures
        final(env).wf(),
        final(mx).wf(),
        final(env)@.current == old(env)@.current,
        final(env)@.vars.len() >= old(env)@.vars.len(),
        final(mx).counter() == old(mx).counter(),
        spec_eval_list(fuel as nat, state_of(old(env)@, old(mx).macros(), old(output)@), values_view(list@), *arith)
            == (result_view(res), state_of(final(env)@, final(mx).macros(), final(output)@)),
    decreases fuel, 1int, 0int,
{
    proof {
        lemma_values_view(list@);
        env.lemma_ok();
    }
    let ghost l = values_view(list@);
    let ghost h = *arith;
    let ghost st0 = state_of(env@, mx.macros(), output@);
    let f1: u64 = fuel - 1;
    assert(f1 as nat == (fuel as nat - 1) as nat);
    if list.len() == 0 {
        let empty: Vec<Value> = Vec::new();
        assert(values_view(empty@) =~= Seq::<ValueView>::empty());
        return Ok(Value::List(empty));
    }
    assert(l[0] == list@[0]@);
    match &list[0] {
        Value::Symbol(n) => {
            if string_is(n, "quote") {
                if list.len() != 2 {
                    return Err(RispyError::ArityError(owned("quote expects exactly 1 argument")));
                }
                assert(l.drop_first()[0] == list@[1]@);
                return Ok(copy_value(&list[1]));
            }
            if string_is(n, "if") {
                if list.len() != 4 {
                    return Err(RispyError::ArityError(owned("if expects exactly 3 arguments (condition then else)")));
                }
                assert(l.drop_first()[0] == list@[1]@);
                assert(l.drop_first()[1] == list@[2]@);
                assert(l.drop_first()[2] == list@[3]@);
                let c = eval_runtime(&list[1], env, mx, arith, output, f1);
                let ghost st1 = state_of(env@, mx.macros(), output@);
                let cv = match c {
                    Ok(cv) => cv,
                    Err(e) => {
                        assert(spec_eval(f1 as nat, st0, l.drop_first()[0], h) == (Err::<ValueView, ErrorView>(e@), st1));
                        return Err(e);
                    },
                };
                assert(spec_eval(f1 as nat, st0, l.drop_first()[0], h) == (Ok::<ValueView, ErrorView>(cv@), st1));
                let branch: usize = if is_truthy(&cv) { 2 } else { 3 };
                let r = eval_runtime(&list[branch], env, mx, arith, output, f1);
                assert(spec_eval(f1 as nat, st1, l.drop_first()[branch - 1], h) == (result_view(r), state_of(env@, mx.macros(), output@)));
                return r;
            }
            if string_is(n, "define") || string_is(n, "set!") {
                if list.len() != 3 {
                    return Err(RispyError::ArityError(join(n.as_str(), " expects exactly 2 arguments (name value)")));
                }
                assert(l.drop_first()[0] == list@[1]@);
                assert(l.drop_first()[1] == list@[2]@);
                let name = match &list[1] {
                    Value::Symbol(s) => s.clone(),
                    _ => {
                        return Err(RispyError::TypeError(join(n.as_str(), ": first argument must be a symbol")));
                    },
                };
                let r = eval_runtime(&list[2], env, mx, arith, output, f1);
                let ghost st1 = state_of(env@, mx.macros(), output@);
                let v = match r {
                    Ok(v) => v,
                    Err(e) => {
                        assert(spec_eval(f1 as nat, st0, l.drop_first()[1], h) == (Err::<ValueView, ErrorView>(e@), st1));
                        return Err(e);
                    },
                };
                let ghost vv = v@;
                let ghost nm = name@;
                assert(spec_eval(f1 as nat, st0, l.drop_first()[1], h) == (Ok::<ValueView, ErrorView>(vv), st1));
                proof {
                    env.lemma_ok();
                }
                if string_is(n, "define") {
                    env.define(name, v);
                    return Ok(Value::Nil);
                }
                let kept = copy_value(&v);
                match env.set(name.as_str(), v) {
                    Ok(()) => {},
                    Err(_) => {
                        env.define(name, copy_value(&kept));
                    },
                }
                proof {
                    lemma_assign_at_shape(st1.env.vars, st1.env.parents, st1.env.current as int, nm, vv);
                }
                assert(env@ == match env_assign(st1.env, nm, vv) {
                    Some(t) => t,
                    None => env_bind(st1.env, nm, vv),
                });
                return Ok(kept);
            }
            if string_is(n, "define-function") {
                match definition_parts_exec("define-function", list) {
                    Err(e) => {
                        return Err(e);
                    },
                    Ok((name, ps)) => {
                        assert(l.drop_first()[2] == list@[3]@);
                        let closure = env.current_scope();
                        let f = Value::Function(Box::new(Function::UserDefined(Box::new(UserFunction {
                            name: Some(name.clone()),
                            params: ps,
                            body: Box::new(copy_value(&list[3])),
                            closure: closure,
                        }))));
                        env.define(name, f);
                        return Ok(Value::Nil);
                    },
                }
            }
            if string_is(n, "define-macro") {
                match definition_parts_exec("define-macro", list) {
                    Err(e) => {
                        return Err(e);
                    },
                    Ok((name, ps)) => {
                        assert(l.drop_first()[2] == list@[3]@);
                        let m = MacroFunction { name: name.clone(), params: ps, body: Box::new(copy_value(&list[3])) };
                        mx.define_macro(name, m);
                        return Ok(Value::Nil);
                    },
                }
            }
            let r = eval_apply(copy_value(&list[0]), list, env, mx, arith, output, fuel);
            assert(spec_apply(fuel as nat, st0, l[0], l.drop_first(), h) == (result_view(r), state_of(env@, mx.macros(), output@)));
            r
        },
        head => {
            let r = eval_runtime(head, env, mx, arith, output, f1);
            let ghost st1 = state_of(env@, mx.macros(), output@);
            let fv = match r {
                Ok(fv) => fv,
                Err(e) => {
                    assert(spec_eval(f1 as nat, st0, l[0], h) == (Err::<ValueView, ErrorView>(e@), st1));
                    return Err(e);
                },
            };
            let ghost fvv = fv@;
            assert(spec_eval(f1 as nat, st0, l[0], h) == (Ok::<ValueView, ErrorView>(fvv), st1));
            if !is_function(&fv) {
                return Err(RispyError::TypeError(owned("First element of list must be a function or symbol")));
            }
            let r2 = eval_apply(fv, list, env, mx, arith, output, fuel);
            assert(spec_apply(fuel as nat, st1, fvv, l.drop_first(), h) == (result_view(r2), state_of(env@, mx.macros(), output@)));
            r2
        },
    }
}

fn eval_apply<A: Arithmetic>(
    fe: Value,
    list: &Vec<Value>,
    env: &mut Environment,
    mx: &mut MacroExpander,
    arith: &A,
    output: &mut Vec<String>,
    fuel: u64,
) -> (res: Result<Value, RispyError>)
    requires
        old(env).wf(),
        old(mx).wf(),
        fuel > 0,
        list@.len() > 0,
    ensures
        final(env).wf(),
        final(mx).wf(),
        final(env)@.current == old(env)@.current,
        final(env)@.vars.len() >= old(env)@.vars.len(),
        final(mx).counter() == old(mx).counter(),
        spec_apply(fuel as nat, state_of(old(env)@, old(mx).macros(), old(output)@), fe@, values_view(list@).drop_first(), *arith)
            == (result_view(res), state_of(final(env)@, final(mx).macros(), final(output)@)),
    decreases fuel, 0int, 0int,
{
    proof {
        lemma_values_view(list@);
    }
    let ghost h = *arith;
    let ghost all = values_view(list@).drop_first();
    let ghost st0 = state_of(env@, mx.macros(), output@);
    let ghost fev = fe@;
    let f1: u64 = fuel - 1;
    assert(f1 as nat == (fuel as nat - 1) as nat);
    let mut args: Vec<Value> = Vec::new();
    let mut i: usize = 1;
    assert(all.skip(0) =~= all);
    assert(values_view(args@) =~= Seq::<ValueView>::empty());
    proof {
        let x = spec_args(fuel as nat, st0, all, h);
        match x.0 {
            Ok(r) => {
                assert(Seq::<ValueView>::empty() + r =~= r);
            },
            Err(_) => {},
        }
    }
    while i < list.len()
        invariant
            1 <= i <= list@.len(),
            env.wf(),
            mx.wf(),
            env@.current == old(env)@.current,
            env@.vars.len() >= old(env)@.vars.len(),
            mx.counter() == old(mx).counter(),
            fuel > 0,
            h == *arith,
            st0 == state_of(old(env)@, old(mx).macros(), old(output)@),
            fev == fe@,
            f1 as nat == (fuel as nat - 1) as nat,
            all == values_view(list@).drop_first(),
            all.len() == list@.len() - 1,
            forall|k: int| 0 <= k < all.len() ==> all[k] == (#[trigger] list@[k + 1])@,
            values_view(args@).len() == i - 1,
            spec_args(fuel as nat, st0, all, h)
                == after_args(values_view(args@), spec_args(fuel as nat, state_of(env@, mx.macros(), output@), all.skip(i - 1), h)),
        decreases list.len() - i,
    {
        let ghost sti = state_of(env@, mx.macros(), output@);
        let ghost rest = all.skip(i - 1);
        assert(rest[0] == list@[i as int]@);
        assert(rest.drop_first() =~= all.skip(i as int));
        let r = eval_runtime(&list[i], env, mx, arith, output, f1);
        let v = match r {
            Ok(v) => v,
            Err(e) => {
                proof {
                    let ste = state_of(env@, mx.macros(), output@);
                    assert(spec_eval(f1 as nat, sti, list@[i as int]@, h) == (Err::<ValueView, ErrorView>(e@), ste));
                    assert(spec_args(fuel as nat, sti, rest, h) == (Err::<Seq<ValueView>, ErrorView>(e@), ste));
                }
                return Err(e);
            },
        };
        let ghost before = args@;
        let ghost vv = v@;
        args.push(v);
        proof {
            lemma_values_view_push(before, v);
            let stn = state_of(env@, mx.macros(), output@);
            assert(spec_eval(f1 as nat, sti, list@[i as int]@, h) == (Ok::<ValueView, ErrorView>(vv), stn));
            assert(spec_args(fuel as nat, sti, rest, h) == after_args(seq![vv], spec_args(fuel as nat, stn, rest.drop_first(), h)));
            lemma_after_args(values_view(before), vv, spec_args(fuel as nat, stn, all.skip(i as int), h));
        }
        i = i + 1;
    }
    let ghost st1 = state_of(env@, mx.macros(), output@);
    let ghost argv = values_view(args@);
    assert(all.skip(i - 1) =~= Seq::<ValueView>::empty());
    assert(argv + Seq::<ValueView>::empty() =~= argv);
    assert(spec_args(fuel as nat, st0, all, h) == (Ok::<Seq<ValueView>, ErrorView>(argv), st1));
    proof {
        lemma_values_view(args@);
    }
    let fval = match fe {
        Value::Symbol(name) => match env.get(name.as_str()) {
            Some(v) => v,
            None => match lookup_builtin(name.as_str()) {
                Some(b) => Value::Function(Box::new(b)),
                None => {
                    let e = RispyError::UndefinedSymbol(join("Undefined function: ", name.as_str()));
                    assert(resolve(st1.env, fev) == Err::<ValueView, ErrorView>(e@));
                    return Err(e);
                },
            },
        },
        Value::Function(f) => Value::Function(f),
        _ => {
            let e = RispyError::TypeError(owned("Cannot apply non-function value"));
            assert(resolve(st1.env, fev) == Err::<ValueView, ErrorView>(e@));
            return Err(e);
        },
    };
    assert(resolve(st1.env, fev) == Ok::<ValueView, ErrorView>(fval@));
    let f = match &fval {
        Value::Function(f) => f,
        _ => {
            return Err(RispyError::TypeError(owned("Value is not a function")));
        },
    };
    match &**f {
        Function::Builtin(b) => {
            let ghost out0 = output@;
            let r = apply_builtin(b.name.as_str(), &args, arith, output);
            proof {
                if builtin_outcome(b.name@, argv, h).1 is Some {
                    lemma_strings_push(out0, output@);
                }
            }
            r
        },
        Function::UserDefined(u) => {
            if args.len() != u.params.len() {
                let label = match &u.name {
                    Some(nm) => nm.clone(),
                    None => owned("<anonymous>"),
                };
                let expected = decimal_string(u.params.len() as u64);
                let got = decimal_string(args.len() as u64);
                let a = join3("Function ", label.as_str(), " expects ");
                let b2 = join3(a.as_str(), expected.as_str(), " arguments, got ");
                return Err(RispyError::ArityError(join(b2.as_str(), got.as_str())));
            }
            proof {
                env.lemma_ok();
            }
            let ghost base = env@;
            let ghost ps = strings_view(u.params@);
            let previous = env.open_scope(u.closure);
            let ghost opened = env@;
            proof {
                env.lemma_ok();
            }
            let mut k: usize = 0;
            while k < u.params.len()
                invariant
                    env.wf(),
                    k <= u.params@.len(),
                    u.params@.len() == args@.len(),
                    ps == strings_view(u.params@),
                    argv == values_view(args@),
                    argv.len() == args@.len(),
                    forall|m: int| 0 <= m < args@.len() ==> argv[m] == (#[trigger] args@[m])@,
                    opened == env_open(base, u.closure as nat),
                    env@.vars.len() == base.vars.len() + 1,
                    env@.current == base.vars.len(),
                    env@ == bind_params(opened, ps.take(k as int), argv.take(k as int)),
                decreases u.params.len() - k,
            {
                proof {
                    env.lemma_ok();
                }
                env.define(u.params[k].clone(), copy_value(&args[k]));
                assert(ps.take(k + 1).drop_last() =~= ps.take(k as int));
                assert(argv.take(k + 1).drop_last() =~= argv.take(k as int));
                k = k + 1;
            }
            assert(ps.take(k as int) =~= ps);
            assert(argv.take(k as int) =~= argv);
            let ghost st2 = state_of(env@, mx.macros(), output@);
            let r = eval_runtime(&u.body, env, mx, arith, output, f1);
            let ghost st3 = state_of(env@, mx.macros(), output@);
            assert(spec_eval(f1 as nat, st2, (*u.body)@, h) == (result_view(r), st3));
            assert(previous < env@.vars.len());
            env.restore_scope(previous);
            r
        },
        Function::Macro(_) => Err(RispyError::RuntimeError(owned("Macros not yet implemented"))),
    }
}

/// The outcome of a top-level evaluation of `expr` from `st` with at most
/// `depth` nested evaluations: its macros are expanded first, and an error
/// there leaves the state as it was; the expansion is then evaluated.
pub open spec fn eval_outcome<A: Arithmetic>(depth: nat, st: EvalState, expr: ValueView, h: A) -> (Result<ValueView, ErrorView>, EvalState) {
    match expand_fix(st.macros, expr, 0) {
        Err(x) => (Err(x), st),
        Ok(e) => spec_eval(depth, st, e, h),
    }
}

/// Expands the macros of `expr`, then evaluates the expansion in `env` with
/// at most `depth` nested evaluations. Lines printed by `print` are appended
/// to `output`.
pub fn eval_with_depth<A: Arithmetic>(
    expr: &Value,
    env: &mut Environment,
    macro_expander: &mut MacroExpander,
    arith: &A,
    output: &mut Vec<String>,
    depth: u64,
) -> (r: Result<Value, RispyError>)
    requires
        old(env).wf(),
        old(macro_expander).wf(),
    ensures
        final(env).wf(),
        final(macro_expander).wf(),
        final(env)@.current == old(env)@.current,
        final(macro_expander).counter() == old(macro_expander).counter(),
        eval_outcome(depth as nat, state_of(old(env)@, old(macro_expander).macros(), old(output)@), expr@, *arith)
            == (result_view(r), state_of(final(env)@, final(macro_expander).macros(), final(output)@)),
{
    let expanded = match macro_expander.expand(expr) {
        Ok(e) => e,
        Err(e) => {
            return Err(e);
        },
    };
    eval_runtime(&expanded, env, macro_expander, arith, output, depth)
}

/// Expands the macros of `expr`, then evaluates the expansion in `env`.
/// Lines printed by `print` are appended to `output`.
pub fn eval_with_macros<A: Arithmetic>(
    expr: &Value,
    env: &mut Environment,
    macro_expander: &mut MacroExpander,
    arith: &A,
    output: &mut Vec<String>,
) -> (r: Result<Value, RispyError>)
    requires
        old(env).wf(),
        old(macro_expander).wf(),
    ensures
        final(env).wf(),
        final(macro_expander).wf(),
        final(env)@.current == old(env)@.current,
        final(macro_expander).counter() == old(macro_expander).counter(),
        eval_outcome(MAX_EVAL_DEPTH as nat, state_of(old(env)@, old(macro_expander).macros(), old(output)@), expr@, *arith)
            == (result_view(r), state_of(final(env)@, final(macro_expander).macros(), final(output)@)),
{
    eval_with_depth(expr, env, macro_expander, arith, output, MAX_EVAL_DEPTH)
}

/// Evaluates `expr` in `env` with no macros defined beforehand. Lines printed
/// by `print` are appended to `output`.
pub fn eval<A: Arithmetic>(expr: &Value, env: &mut Environment, arith: &A, output: &mut Vec<String>) -> (r: Result<Value, RispyError>)
    requires
        old(env).wf(),
    ensures
        final(env).wf(),
        final(env)@.current == old(env)@.current,
        ({
            let (res, st) = eval_outcome(MAX_EVAL_DEPTH as nat, state_of(old(env)@, seq![Map::empty()], old(output)@), expr@, *arith);
            &&& res == result_view(r)
            &&& st.env == final(env)@
            &&& st.printed == strings_view(final(output)@)
        }),
{
    let macro_env = MacroEnvironment::new();
    let mut macro_expander = MacroExpander::new(macro_env);
    eval_with_macros(expr, env, &mut macro_expander, arith, output)
}

/// The global scope: every primitive, bound under its name.
pub open spec fn global_scope() -> Map<Seq<char>, ValueView> {
    Map::new(
        |n: Seq<char>| builtin_named(n) is Some,
        |n: Seq<char>| ValueView::Function(Box::new(builtin_named(n).unwrap())),
    )
}

/// The environment whose one scope, a root, binds every primitive under its name.
pub open spec fn global_env() -> EnvView {
    EnvView { vars: seq![global_scope()], parents: seq![0nat], current: 0 }
}

/// An environment whose one scope binds every primitive under its name.
pub fn create_global_environment() -> (e: Environment)
    ensures
        e.wf(),
        e@ == global_env(),
{
    let registry = crate::builtins::create_builtin_registry();
    let mut env = Environment::new();
    let mut i: usize = 0;
    while i < registry.len()
        invariant
            i <= registry@.len(),
            registry@.len() == 12,
            forall|j: int| 0 <= j < registry@.len() ==> builtin_named((#[trigger] registry@[j]).0@) == Some(registry@[j].1@),
            forall|nm: Seq<char>| builtin_named(nm) is Some ==> exists|j: int| 0 <= j < registry@.len() && (#[trigger] registry@[j]).0@ == nm,
            env.wf(),
            env@.vars.len() == 1,
            env@.parents == seq![0nat],
            env@.current == 0,
            forall|k: Seq<char>| env@.vars[0].contains_key(k) <==> exists|j: int| 0 <= j < i && (#[trigger] registry@[j]).0@ == k,
            forall|k: Seq<char>| #[trigger] env@.vars[0].contains_key(k) ==> builtin_named(k) is Some && env@.vars[0][k] == ValueView::Function(Box::new(builtin_named(k).unwrap())),
        decreases registry.len() - i,
    {
        let ghost before = env@.vars[0];
        let ghost key = registry@[i as int].0@;
        assert(builtin_named(key) == Some(registry@[i as int].1@));
        env.define(registry[i].0.clone(), Value::Function(Box::new(crate::value::copy_function(&registry[i].1))));
        assert(env@.vars[0] == before.insert(key, ValueView::Function(Box::new(registry@[i as int].1@))));
        assert forall|k: Seq<char>| env@.vars[0].contains_key(k) implies exists|j: int| 0 <= j < i + 1 && (#[trigger] registry@[j]).0@ == k by {
            if k != key {
                assert(before.contains_key(k));
                let j = choose|j: int| 0 <= j < i && (#[trigger] registry@[j]).0@ == k;
                assert(registry@[j].0@ == k);
            } else {
                assert(registry@[i as int].0@ == k);
            }
        }
        assert forall|k: Seq<char>| (exists|j: int| 0 <= j < i + 1 && (#[trigger] registry@[j]).0@ == k) implies env@.vars[0].contains_key(k) by {
            let j = choose|j: int| 0 <= j < i + 1 && (#[trigger] registry@[j]).0@ == k;
            if j < i {
                assert(before.contains_key(k));
            }
        }
        i = i + 1;
    }
    assert(env@.vars[0] =~= global_scope());
    assert(env@.vars =~= seq![global_scope()]);
    env
}

/// The global environment together with a macro expander that knows no macros.
pub fn create_global_environment_with_macros() -> (r: (Environment, MacroExpander))
    ensures
        r.0.wf(),
        r.0@ == global_env(),
        r.1.wf(),
        r.1.macros() == seq![Map::<Seq<char>, FunctionView>::empty()],
        r.1.counter() == 0,
{
    let env = create_global_environment();
    let macro_env = MacroEnvironment::new();
    let macro_expander = MacroExpander::new(macro_env);
    (env, macro_expander)
}

/// The names of the special forms, told apart by their lengths.
proof fn lemma_form_names()
    ensures
        "quote"@.len() == 5,
        "if"@.len() == 2,
        "define"@.len() == 6,
        "set!"@.len() == 4,
        "define-function"@.len() == 15,
        "define-macro"@.len() == 12,
{
    reveal_strlit("quote");
    reveal_strlit("if");
    reveal_strlit("define");
    reveal_strlit("set!");
    reveal_strlit("define-function");
    reveal_strlit("define-macro");
}

/// `b` is well formed, has the current scope of `a`, and at least its scopes.
pub open spec fn keeps_scope(a: EnvView, b: EnvView) -> bool {
    &&& env_ok(b)
    &&& b.current == a.current
    &&& b.vars.len() >= a.vars.len()
}

proof fn lemma_open_ok(e: EnvView, p: nat)
    requires
        env_ok(e),
    ensures
        env_ok(env_open(e, p)),
        env_open(e, p).current == e.vars.len(),
        env_open(e, p).vars.len() == e.vars.len() + 1,
{
    let o = env_open(e, p);
    assert forall|i: int| 0 <= i < o.parents.len() implies #[trigger] o.parents[i] <= i by {
        if i < e.parents.len() {
            assert(o.parents[i] == e.parents[i]);
        }
    }
}

proof fn lemma_bind_params_ok(e: EnvView, ps: Seq<Seq<char>>, args: Seq<ValueView>)
    requires
        env_ok(e),
    ensures
        env_ok(bind_params(e, ps, args)),
        bind_params(e, ps, args).current == e.current,
        bind_params(e, ps, args).vars.len() == e.vars.len(),
    decreases ps.len(),
{
    if ps.len() > 0 && args.len() > 0 {
        lemma_bind_params_ok(e, ps.drop_last(), args.drop_last());
        let b0 = bind_params(e, ps.drop_last(), args.drop_last());
        crate::environment::law_lookup_after_bind(b0, ps.last(), args.last(), ps.last());
    }
}

/// Evaluation keeps the scopes well formed, ends in the scope it started in,
/// and removes no scope.
pub proof fn law_eval_keeps_scope<A: Arithmetic>(fuel: nat, st: EvalState, e: ValueView, h: A)
    requires
        env_ok(st.env),
    ensures
        keeps_scope(st.env, spec_eval(fuel, st, e, h).1.env),
    decreases fuel, 2int, 0int,
{
    if fuel > 0 {
        match e {
            ValueView::List(l) => lemma_list_keeps_scope(fuel, st, l, h),
            _ => {},
        }
    }
}

proof fn lemma_list_keeps_scope<A: Arithmetic>(fuel: nat, st: EvalState, l: Seq<ValueView>, h: A)
    requires
        env_ok(st.env),
    ensures
        keeps_scope(st.env, spec_eval_list(fuel, st, l, h).1.env),
    decreases fuel, 1int, 0int,
{
    if fuel > 0 && l.len() > 0 {
        let f = (fuel - 1) as nat;
        let args = l.drop_first();
        match l[0] {
            ValueView::Symbol(n) => {
                if n == "quote"@ {
                } else if n == "if"@ {
                    if args.len() == 3 {
                        law_eval_keeps_scope(f, st, args[0], h);
                        let (c, st1) = spec_eval(f, st, args[0], h);
                        law_eval_keeps_scope(f, st1, args[1], h);
                        law_eval_keeps_scope(f, st1, args[2], h);
                    }
                } else if n == "define"@ || n == "set!"@ {
                    if args.len() == 2 {
                        law_eval_keeps_scope(f, st, args[1], h);
                        let (r, st1) = spec_eval(f, st, args[1], h);
                        match (args[0], r) {
                            (ValueView::Symbol(name), Ok(v)) => {
                                crate::environment::law_lookup_after_bind(st1.env, name, v, name);
                                crate::environment::law_lookup_after_assign(st1.env, name, v);
                                lemma_assign_at_shape(st1.env.vars, st1.env.parents, st1.env.current as int, name, v);
                            },
                            _ => {},
                        }
                    }
                } else if n == "define-function"@ {
                    match definition_parts(n, args) {
                        Ok((name, ps)) => {
                            let fv = ValueView::Function(Box::new(FunctionView::User { name: Some(name), params: ps, body: args[2], closure: st.env.current }));
                            crate::environment::law_lookup_after_bind(st.env, name, fv, name);
                        },
                        Err(_) => {},
                    }
                } else if n == "define-macro"@ {
                } else {
                    lemma_apply_keeps_scope(fuel, st, l[0], args, h);
                }
            },
            other => {
                law_eval_keeps_scope(f, st, other, h);
                let (r, st1) = spec_eval(f, st, other, h);
                match r {
                    Ok(fv) => lemma_apply_keeps_scope(fuel, st1, fv, args, h),
                    Err(_) => {},
                }
            },
        }
    }
}

proof fn lemma_args_keep_scope<A: Arithmetic>(fuel: nat, st: EvalState, l: Seq<ValueView>, h: A)
    requires
        env_ok(st.env),
    ensures
        keeps_scope(st.env, spec_args(fuel, st, l, h).1.env),
    decreases fuel, 0int, l.len(),
{
    if fuel > 0 && l.len() > 0 {
        law_eval_keeps_scope((fuel - 1) as nat, st, l[0], h);
        let (r, st1) = spec_eval((fuel - 1) as nat, st, l[0], h);
        if r is Ok {
            lemma_args_keep_scope(fuel, st1, l.drop_first(), h);
        }
    }
}

proof fn lemma_apply_keeps_scope<A: Arithmetic>(fuel: nat, st: EvalState, fe: ValueView, arg_exprs: Seq<ValueView>, h: A)
    requires
        env_ok(st.env),
    ensures
        keeps_scope(st.env, spec_apply(fuel, st, fe, arg_exprs, h).1.env),
    decreases fuel, 0int, arg_exprs.len() + 1,
{
    if fuel > 0 {
        lemma_args_keep_scope(fuel, st, arg_exprs, h);
        let (ar, st1) = spec_args(fuel, st, arg_exprs, h);
        match ar {
            Ok(args) => match resolve(st1.env, fe) {
                Ok(ValueView::Function(fv)) => match *fv {
                    FunctionView::User { params, body, closure, .. } => {
                        if args.len() == params.len() {
                            lemma_open_ok(st1.env, closure);
                            lemma_bind_params_ok(env_open(st1.env, closure), params, args);
                            let st2 = with_env(st1, bind_params(env_open(st1.env, closure), params, args));
                            law_eval_keeps_scope((fuel - 1) as nat, st2, body, h);
                        }
                    },
                    _ => {},
                },
                _ => {},
            },
            Err(_) => {},
        }
    }
}

/// Where no macro is known, a top-level evaluation is the evaluation of the
/// expression itself (so the laws on `spec_eval` hold of `eval`).
pub proof fn law_top_level_without_macros<A: Arithmetic>(depth: nat, st: EvalState, expr: ValueView, h: A)
    requires
        forall|k: Seq<char>| #[trigger] crate::environment::lookup(st.macros, k) is None,
    ensures
        eval_outcome(depth, st, expr, h) == spec_eval(depth, st, expr, h),
{
    crate::macros::law_expand_without_macros(st.macros, expr);
}

/// A fresh expander knows no macro.
pub proof fn law_no_macros_at_first(k: Seq<char>)
    ensures
        crate::environment::lookup(seq![Map::<Seq<char>, FunctionView>::empty()], k) is None,
{
    reveal_with_fuel(crate::environment::lookup, 2);
}

/// Nil, booleans, numbers, strings, functions and the empty list evaluate to
/// themselves and change nothing.
pub proof fn law_self_evaluating<A: Arithmetic>(fuel: nat, st: EvalState, e: ValueView, h: A)
    requires
        fuel > 0,
        !(e is Symbol),
        e matches ValueView::List(l) ==> l.len() == 0,
    ensures
        spec_eval(fuel, st, e, h) == (Ok::<ValueView, ErrorView>(e), st),
{
    match e {
        ValueView::List(l) => {
            assert(l =~= Seq::<ValueView>::empty());
        },
        _ => {},
    }
}

/// A quoted expression evaluates to itself, unevaluated, and changes nothing.
pub proof fn law_quote<A: Arithmetic>(fuel: nat, st: EvalState, x: ValueView, h: A)
    requires
        fuel > 0,
    ensures
        spec_eval(fuel, st, ValueView::List(seq![ValueView::Symbol("quote"@), x]), h) == (Ok::<ValueView, ErrorView>(x), st),
{
    let l = seq![ValueView::Symbol("quote"@), x];
    assert(l.drop_first() =~= seq![x]);
}

/// `if` evaluates its condition and then only the branch the condition
/// selects: the else branch for nil and false, the then branch for anything
/// else. An error in the condition is the error of the whole.
pub proof fn law_if<A: Arithmetic>(fuel: nat, st: EvalState, c: ValueView, a: ValueView, b: ValueView, h: A)
    requires
        fuel > 0,
    ensures
        spec_eval(fuel, st, ValueView::List(seq![ValueView::Symbol("if"@), c, a, b]), h) == ({
            let (cr, st1) = spec_eval((fuel - 1) as nat, st, c, h);
            match cr {
                Ok(cv) => spec_eval((fuel - 1) as nat, st1, if spec_truthy(cv) { a } else { b }, h),
                Err(x) => (Err(x), st1),
            }
        }),
{
    lemma_form_names();
    let l = seq![ValueView::Symbol("if"@), c, a, b];
    assert(l.drop_first() =~= seq![c, a, b]);
}

/// After `(define name e)` succeeds, `name` evaluates to the value of `e`; the
/// definition itself evaluates to nil. An error in `e` is the error of the
/// definition.
pub proof fn law_define_then_lookup<A: Arithmetic>(fuel: nat, later: nat, st: EvalState, name: Seq<char>, e: ValueView, h: A)
    requires
        fuel > 0,
        later > 0,
        env_ok(st.env),
    ensures
        ({
            let (er, st1) = spec_eval((fuel - 1) as nat, st, e, h);
            let (r, st2) = spec_eval(fuel, st, ValueView::List(seq![ValueView::Symbol("define"@), ValueView::Symbol(name), e]), h);
            match er {
                Ok(v) => r == Ok::<ValueView, ErrorView>(ValueView::Nil) && spec_eval(later, st2, ValueView::Symbol(name), h) == (Ok::<ValueView, ErrorView>(v), st2),
                Err(x) => r == Err::<ValueView, ErrorView>(x) && st2 == st1,
            }
        }),
{
    lemma_form_names();
    let l = seq![ValueView::Symbol("define"@), ValueView::Symbol(name), e];
    assert(l.drop_first() =~= seq![ValueView::Symbol(name), e]);
    law_eval_keeps_scope((fuel - 1) as nat, st, e, h);
    let (er, st1) = spec_eval((fuel - 1) as nat, st, e, h);
    match er {
        Ok(v) => {
            crate::environment::law_lookup_after_bind(st1.env, name, v, name);
        },
        Err(_) => {},
    }
}

/// `(set! name e)` evaluates to the value of `e`, after which `name` evaluates
/// to that value, whether or not it was bound before. An error in `e` is the
/// error of the whole.
pub proof fn law_set_then_lookup<A: Arithmetic>(fuel: nat, later: nat, st: EvalState, name: Seq<char>, e: ValueView, h: A)
    requires
        fuel > 0,
        later > 0,
        env_ok(st.env),
    ensures
        ({
            let (er, st1) = spec_eval((fuel - 1) as nat, st, e, h);
            let (r, st2) = spec_eval(fuel, st, ValueView::List(seq![ValueView::Symbol("set!"@), ValueView::Symbol(name), e]), h);
            match er {
                Ok(v) => r == Ok::<ValueView, ErrorView>(v) && spec_eval(later, st2, ValueView::Symbol(name), h) == (Ok::<ValueView, ErrorView>(v), st2),
                Err(x) => r == Err::<ValueView, ErrorView>(x) && st2 == st1,
            }
        }),
{
    lemma_form_names();
    let l = seq![ValueView::Symbol("set!"@), ValueView::Symbol(name), e];
    assert(l.drop_first() =~= seq![ValueView::Symbol(name), e]);
    law_eval_keeps_scope((fuel - 1) as nat, st, e, h);
    let (er, st1) = spec_eval((fuel - 1) as nat, st, e, h);
    match er {
        Ok(v) => {
            crate::environment::law_lookup_after_assign(st1.env, name, v);
            crate::environment::law_lookup_after_bind(st1.env, name, v, name);
        },
        Err(_) => {},
    }
}

/// Parameter names as a list of symbols.
pub open spec fn symbols(ps: Seq<Seq<char>>) -> Seq<ValueView> {
    ps.map_values(|p: Seq<char>| ValueView::Symbol(p))
}

proof fn lemma_param_names_of_symbols(ps: Seq<Seq<char>>)
    ensures
        param_names(symbols(ps)) == Some(ps),
    decreases ps.len(),
{
    if ps.len() > 0 {
        lemma_param_names_of_symbols(ps.drop_last());
        assert(symbols(ps).drop_last() =~= symbols(ps.drop_last()));
        assert(ps.drop_last().push(ps.last()) =~= ps);
    } else {
        assert(ps =~= Seq::<Seq<char>>::empty());
    }
}

/// After `(define-macro name (params...) body)`, evaluated to nil, a call of
/// `name` expands to the template `body` with the call's (unevaluated)
/// arguments in place of the parameters; the variables are untouched.
pub proof fn law_define_macro_then_expand<A: Arithmetic>(
    fuel: nat,
    st: EvalState,
    name: Seq<char>,
    params: Seq<Seq<char>>,
    body: ValueView,
    args: Seq<ValueView>,
    h: A,
)
    requires
        fuel > 0,
        st.macros.len() > 0,
    ensures
        ({
            let form = ValueView::List(seq![ValueView::Symbol("define-macro"@), ValueView::Symbol(name), ValueView::List(symbols(params)), body]);
            let (r, st1) = spec_eval(fuel, st, form, h);
            &&& r == Ok::<ValueView, ErrorView>(ValueView::Nil)
            &&& st1.env == st.env
            &&& expand_once_spec(st1.macros, ValueView::List(seq![ValueView::Symbol(name)] + args))
                == expand_call(FunctionView::Macro { name: name, params: params, body: body }, args)
        }),
{
    lemma_form_names();
    lemma_param_names_of_symbols(params);
    let l = seq![ValueView::Symbol("define-macro"@), ValueView::Symbol(name), ValueView::List(symbols(params)), body];
    assert(l.drop_first() =~= seq![ValueView::Symbol(name), ValueView::List(symbols(params)), body]);
    let m = FunctionView::Macro { name: name, params: params, body: body };
    crate::environment::law_chain_lookup_after_bind(st.macros, name, m, name);
    let call = seq![ValueView::Symbol(name)] + args;
    assert(call[0] == ValueView::Symbol(name));
    assert(call.drop_first() =~= args);
}

/// The scope a call binds its parameters in: each parameter mapped to its argument.
pub open spec fn param_scope(ps: Seq<Seq<char>>, args: Seq<ValueView>) -> Map<Seq<char>, ValueView>
    decreases ps.len(),
{
    if ps.len() == 0 || args.len() == 0 {
        Map::empty()
    } else {
        param_scope(ps.drop_last(), args.drop_last()).insert(ps.last(), args.last())
    }
}

proof fn lemma_bind_params_scope(e: EnvView, ps: Seq<Seq<char>>, args: Seq<ValueView>)
    requires
        env_ok(e),
        e.vars[e.current as int] == Map::<Seq<char>, ValueView>::empty(),
    ensures
        bind_params(e, ps, args) == (EnvView { vars: e.vars.update(e.current as int, param_scope(ps, args)), ..e }),
    decreases ps.len(),
{
    if ps.len() == 0 || args.len() == 0 {
        assert(e.vars.update(e.current as int, Map::empty()) =~= e.vars);
    } else {
        lemma_bind_params_scope(e, ps.drop_last(), args.drop_last());
        let m0 = param_scope(ps.drop_last(), args.drop_last());
        let b0 = bind_params(e, ps.drop_last(), args.drop_last());
        assert(b0.vars[e.current as int] == m0);
        assert(b0.vars.update(e.current as int, m0.insert(ps.last(), args.last())) =~= e.vars.update(e.current as int, param_scope(ps, args)));
    }
}

proof fn lemma_param_scope(ps: Seq<Seq<char>>, args: Seq<ValueView>)
    requires
        ps.len() == args.len(),
        ps.no_duplicates(),
    ensures
        forall|i: int| 0 <= i < ps.len() ==> #[trigger] param_scope(ps, args).contains_key(ps[i]) && param_scope(ps, args)[ps[i]] == args[i],
        forall|k: Seq<char>| #[trigger] param_scope(ps, args).contains_key(k) ==> ps.contains(k),
    decreases ps.len(),
{
    if ps.len() > 0 {
        let ps0 = ps.drop_last();
        let as0 = args.drop_last();
        assert(ps0.no_duplicates());
        lemma_param_scope(ps0, as0);
        let m = param_scope(ps, args);
        let m0 = param_scope(ps0, as0);
        assert forall|i: int| 0 <= i < ps.len() implies #[trigger] m.contains_key(ps[i]) && m[ps[i]] == args[i] by {
            if i < ps.len() - 1 {
                assert(ps0[i] == ps[i]);
                assert(ps[i] != ps.last());
            }
        }
        assert forall|k: Seq<char>| #[trigger] m.contains_key(k) implies ps.contains(k) by {
            if k != ps.last() {
                assert(m0.contains_key(k));
                assert(ps0.contains(k));
                let j = choose|j: int| 0 <= j < ps0.len() && ps0[j] == k;
                assert(ps[j] == k);
            } else {
                assert(ps[ps.len() - 1] == k);
            }
        }
    }
}

/// Inside a call, each parameter names its argument, and every other name has
/// the value it has seen from the scope the function was defined in (lexical
/// scope: the caller's variables are not seen).
pub proof fn law_parameters_shadow(e: EnvView, closure: nat, ps: Seq<Seq<char>>, args: Seq<ValueView>, k: Seq<char>)
    requires
        env_ok(e),
        closure < e.vars.len(),
        ps.len() == args.len(),
        ps.no_duplicates(),
    ensures
        env_ok(bind_params(env_open(e, closure), ps, args)),
        forall|i: int| 0 <= i < ps.len() ==> env_lookup(bind_params(env_open(e, closure), ps, args), #[trigger] ps[i]) == Some(args[i]),
        !ps.contains(k) ==> env_lookup(bind_params(env_open(e, closure), ps, args), k) == lookup_at(e.vars, e.parents, closure as int, k),
{
    let o = env_open(e, closure);
    lemma_open_ok(e, closure);
    lemma_bind_params_ok(o, ps, args);
    lemma_bind_params_scope(o, ps, args);
    lemma_param_scope(ps, args);
    let m = param_scope(ps, args);
    assert forall|i: int| 0 <= i < ps.len() implies env_lookup(bind_params(o, ps, args), #[trigger] ps[i]) == Some(args[i]) by {
        crate::environment::law_new_scope_shadows(e, closure, m, ps[i]);
    }
    crate::environment::law_new_scope_shadows(e, closure, m, k);
}

proof fn lemma_args_len<A: Arithmetic>(fuel: nat, st: EvalState, l: Seq<ValueView>, h: A)
    ensures
        spec_args(fuel, st, l, h).0 matches Ok(vs) ==> vs.len() == l.len(),
    decreases fuel, 0int, l.len(),
{
    if fuel > 0 && l.len() > 0 {
        let (r, st1) = spec_eval((fuel - 1) as nat, st, l[0], h);
        if r is Ok {
            lemma_args_len(fuel, st1, l.drop_first(), h);
        }
    }
}

/// Calling a defined function with more or fewer arguments than it has
/// parameters is an arity error naming the function and both counts, once the
/// arguments are evaluated; its body is not evaluated, so nothing changes
/// beyond what evaluating the arguments changed.
pub proof fn law_call_arity<A: Arithmetic>(
    fuel: nat,
    st: EvalState,
    fe: ValueView,
    arg_exprs: Seq<ValueView>,
    name: Option<Seq<char>>,
    params: Seq<Seq<char>>,
    body: ValueView,
    closure: nat,
    h: A,
)
    requires
        fuel > 0,
        spec_args(fuel, st, arg_exprs, h).0 is Ok,
        resolve(spec_args(fuel, st, arg_exprs, h).1.env, fe) == Ok::<ValueView, ErrorView>(ValueView::Function(Box::new(
            FunctionView::User { name: name, params: params, body: body, closure: closure },
        ))),
        arg_exprs.len() != params.len(),
    ensures
        spec_apply(fuel, st, fe, arg_exprs, h) == (
            Err::<ValueView, ErrorView>(ErrorView::Arity(
                "Function "@ + user_name(name) + " expects "@ + decimal(params.len()) + " arguments, got "@ + decimal(arg_exprs.len()),
            )),
            spec_args(fuel, st, arg_exprs, h).1,
        ),
{
    lemma_args_len(fuel, st, arg_exprs, h);
}

/// Arguments are evaluated from left to right: the first argument is
/// evaluated from the state of the call, and the others from the state it
/// leaves; its value comes first.
pub proof fn law_arguments_left_to_right<A: Arithmetic>(fuel: nat, st: EvalState, first: ValueView, rest: Seq<ValueView>, h: A)
    requires
        fuel > 0,
    ensures
        spec_args(fuel, st, seq![first] + rest, h) == ({
            let (r, st1) = spec_eval((fuel - 1) as nat, st, first, h);
            match r {
                Err(x) => (Err::<Seq<ValueView>, ErrorView>(x), st1),
                Ok(v) => {
                    let (rr, st2) = spec_args(fuel, st1, rest, h);
                    match rr {
                        Ok(vs) => (Ok::<Seq<ValueView>, ErrorView>(seq![v] + vs), st2),
                        Err(x) => (Err::<Seq<ValueView>, ErrorView>(x), st2),
                    }
                },
            }
        }),
{
    let l = seq![first] + rest;
    assert(l[0] == first);
    assert(l.drop_first() =~= rest);
}

/// A call of a defined function with as many arguments as parameters
/// evaluates the body, once, in a new scope in which each parameter names its
/// argument and every other name has the value it has seen from the scope the
/// function was defined in (not from the caller); the call's value is the
/// body's, and afterwards the caller's scope is current again.
pub proof fn law_call_of_defined_function<A: Arithmetic>(
    fuel: nat,
    st: EvalState,
    fe: ValueView,
    arg_exprs: Seq<ValueView>,
    name: Option<Seq<char>>,
    params: Seq<Seq<char>>,
    body: ValueView,
    closure: nat,
    k: Seq<char>,
    h: A,
)
    requires
        fuel > 0,
        env_ok(st.env),
        spec_args(fuel, st, arg_exprs, h).0 is Ok,
        resolve(spec_args(fuel, st, arg_exprs, h).1.env, fe) == Ok::<ValueView, ErrorView>(ValueView::Function(Box::new(
            FunctionView::User { name: name, params: params, body: body, closure: closure },
        ))),
        arg_exprs.len() == params.len(),
        params.no_duplicates(),
        closure < spec_args(fuel, st, arg_exprs, h).1.env.vars.len(),
    ensures
        ({
            let (ar, st1) = spec_args(fuel, st, arg_exprs, h);
            let vs = ar->Ok_0;
            let st2 = with_env(st1, bind_params(env_open(st1.env, closure), params, vs));
            let (r, st3) = spec_eval((fuel - 1) as nat, st2, body, h);
            &&& forall|i: int| 0 <= i < params.len() ==> env_lookup(st2.env, #[trigger] params[i]) == Some(vs[i])
            &&& !params.contains(k) ==> env_lookup(st2.env, k) == lookup_at(st1.env.vars, st1.env.parents, closure as int, k)
            &&& st2.printed == st1.printed && st2.macros == st1.macros
            &&& spec_apply(fuel, st, fe, arg_exprs, h).0 == r
            &&& spec_apply(fuel, st, fe, arg_exprs, h).1 == with_env(st3, env_at(st3.env, st.env.current))
            &&& spec_apply(fuel, st, fe, arg_exprs, h).1.env.current == st.env.current
        }),
{
    lemma_args_len(fuel, st, arg_exprs, h);
    lemma_args_keep_scope(fuel, st, arg_exprs, h);
    let (ar, st1) = spec_args(fuel, st, arg_exprs, h);
    law_parameters_shadow(st1.env, closure, params, ar->Ok_0, k);
}

/// Arguments are evaluated before the function is looked up or applied: an
/// error in an argument is the error of the call, whatever the function.
pub proof fn law_arguments_first<A: Arithmetic>(fuel: nat, st: EvalState, fe: ValueView, args: Seq<ValueView>, h: A)
    requires
        fuel > 0,
        spec_args(fuel, st, args, h).0 is Err,
    ensures
        spec_apply(fuel, st, fe, args, h) == ({
            let (ar, st1) = spec_args(fuel, st, args, h);
            (Err::<ValueView, ErrorView>(ar->Err_0), st1)
        }),
{
}
} // verus!
