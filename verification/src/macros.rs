use vstd::prelude::*;
use crate::environment::{lookup, MacroEnvironment};
use crate::error::{ErrorView, RispyError};
use crate::text::{decimal, decimal_string, join, join3, owned, string_is};
use crate::value::{
    copy_value, lemma_values_view, strings_view, values_identical, values_view,
    FunctionView, MacroFunction, Value, ValueView,
};

verus! {

/// The value of a macro parameter: the argument of the last parameter with
/// that name.
pub open spec fn bound_value(params: Seq<Seq<char>>, args: Seq<ValueView>, name: Seq<char>) -> Option<ValueView>
    decreases params.len(),
{
    if params.len() == 0 || args.len() == 0 {
        None
    } else if params.last() == name {
        Some(args.last())
    } else {
        bound_value(params.drop_last(), args.drop_last(), name)
    }
}

/// A symbol in a template: the argument it names, or itself.
pub open spec fn substitute(params: Seq<Seq<char>>, args: Seq<ValueView>, name: Seq<char>) -> ValueView {
    match bound_value(params, args, name) {
        Some(v) => v,
        None => ValueView::Symbol(name),
    }
}

pub open spec fn runtime(msg: Seq<char>) -> ErrorView {
    ErrorView::Runtime(msg)
}

/// A template with the macro's arguments put in: symbols naming parameters
/// are replaced, `quasiquote` forms are processed, and a bare `unquote` or
/// `unquote-splicing` is an error.
pub open spec fn expand_tmpl(ps: Seq<Seq<char>>, args: Seq<ValueView>, t: ValueView) -> Result<ValueView, ErrorView>
    decreases t, 0int,
{
    match t {
        ValueView::Symbol(n) => Ok(substitute(ps, args, n)),
        ValueView::List(l) => if l.len() == 0 {
            Ok(t)
        } else if l[0] == ValueView::Symbol("quasiquote"@) {
            if l.len() != 2 {
                Err(runtime("quasiquote expects exactly 1 argument"@))
            } else {
                quasi(ps, args, l[1])
            }
        } else if l[0] == ValueView::Symbol("unquote"@) {
            if l.len() != 2 {
                Err(runtime("unquote expects exactly 1 argument"@))
            } else {
                Err(runtime("unquote outside of quasiquote"@))
            }
        } else if l[0] == ValueView::Symbol("unquote-splicing"@) {
            Err(runtime("unquote-splicing outside of quasiquote"@))
        } else {
            match expand_each(ps, args, l) {
                Ok(r) => Ok(ValueView::List(r)),
                Err(e) => Err(e),
            }
        },
        _ => Ok(t),
    }
}

/// Each element of a template list expanded, in order; the first error stops.
pub open spec fn expand_each(ps: Seq<Seq<char>>, args: Seq<ValueView>, l: Seq<ValueView>) -> Result<Seq<ValueView>, ErrorView>
    decreases l, 0int,
{
    if l.len() == 0 {
        Ok(seq![])
    } else {
        match expand_tmpl(ps, args, l[0]) {
            Ok(v) => match expand_each(ps, args, l.drop_first()) {
                Ok(r) => Ok(seq![v] + r),
                Err(e) => Err(e),
            },
            Err(e) => Err(e),
        }
    }
}

/// The body of a `quasiquote` form: `unquote` forms are expanded as templates,
/// other lists are processed element by element, and everything else is kept
/// as it is.
pub open spec fn quasi(ps: Seq<Seq<char>>, args: Seq<ValueView>, e: ValueView) -> Result<ValueView, ErrorView>
    decreases e, 1int,
{
    match e {
        ValueView::List(l) => if l.len() == 0 {
            Ok(e)
        } else if l[0] == ValueView::Symbol("unquote"@) {
            if l.len() != 2 {
                Err(runtime("unquote expects exactly 1 argument"@))
            } else {
                expand_tmpl(ps, args, l[1])
            }
        } else if l[0] == ValueView::Symbol("unquote-splicing"@) {
            Err(runtime("unquote-splicing not valid in this position"@))
        } else {
            match quasi_list(ps, args, l) {
                Ok(r) => Ok(ValueView::List(r)),
                Err(x) => Err(x),
            }
        },
        _ => Ok(e),
    }
}

/// The elements of a list inside `quasiquote`; `unquote-splicing` forms put
/// the elements of their (list) value in place.
pub open spec fn quasi_list(ps: Seq<Seq<char>>, args: Seq<ValueView>, l: Seq<ValueView>) -> Result<Seq<ValueView>, ErrorView>
    decreases l, 1int,
{
    if l.len() == 0 {
        Ok(seq![])
    } else {
        let item = l[0];
        let head: Result<Seq<ValueView>, ErrorView> = match item {
            ValueView::List(il) => if il.len() > 0 && il[0] == ValueView::Symbol("unquote-splicing"@) {
                if il.len() != 2 {
                    Err(runtime("unquote-splicing expects exactly 1 argument"@))
                } else {
                    match expand_tmpl(ps, args, il[1]) {
                        Ok(ValueView::List(sl)) => Ok(sl),
                        Ok(_) => Err(runtime("unquote-splicing requires a list"@)),
                        Err(x) => Err(x),
                    }
                }
            } else {
                match quasi(ps, args, item) {
                    Ok(v) => Ok(seq![v]),
                    Err(x) => Err(x),
                }
            },
            _ => match quasi(ps, args, item) {
                Ok(v) => Ok(seq![v]),
                Err(x) => Err(x),
            },
        };
        match head {
            Ok(h) => match quasi_list(ps, args, l.drop_first()) {
                Ok(r) => Ok(h + r),
                Err(x) => Err(x),
            },
            Err(x) => Err(x),
        }
    }
}


fn symbol_is(v: &Value, lit: &str) -> (b: bool)
    ensures
        b == (v@ == ValueView::Symbol(lit@)),
{
    match v {
        Value::Symbol(s) => string_is(s, lit),
        _ => false,
    }
}

proof fn lemma_bound_value(params: Seq<Seq<char>>, args: Seq<ValueView>, name: Seq<char>, j: int)
    requires
        params.len() == args.len(),
        -1 <= j < params.len(),
        forall|k: int| j < k < params.len() ==> params[k] != name,
        j >= 0 ==> params[j] == name,
    ensures
        bound_value(params, args, name) == if j >= 0 { Some(args[j]) } else { None::<ValueView> },
    decreases params.len(),
{
    if params.len() > 0 && j < params.len() - 1 {
        lemma_bound_value(params.drop_last(), args.drop_last(), name, j);
    }
}

fn substitute_exec(name: &String, params: &Vec<String>, args: &Vec<Value>) -> (r: Value)
    requires
        params@.len() == args@.len(),
    ensures
        r@ == substitute(strings_view(params@), values_view(args@), name@),
{
    proof {
        lemma_values_view(args@);
    }
    let mut k = params.len();
    while k > 0
        invariant
            k <= params@.len(),
            params@.len() == args@.len(),
            forall|m: int| k <= m < params@.len() ==> (#[trigger] params@[m])@ != name@,
        decreases k,
    {
        if params[k - 1] == *name {
            proof {
                lemma_values_view(args@);
                assert(strings_view(params@)[k - 1] == params@[k - 1]@);
                lemma_bound_value(strings_view(params@), values_view(args@), name@, k - 1);
            }
            return copy_value(&args[k - 1]);
        }
        k = k - 1;
    }
    proof {
        lemma_values_view(args@);
        lemma_bound_value(strings_view(params@), values_view(args@), name@, -1);
    }
    Value::Symbol(name.clone())
}

/// A template with the arguments of a macro call put in.
pub fn expand_template(template: &Value, params: &Vec<String>, args: &Vec<Value>) -> (r: Result<Value, RispyError>)
    requires
        params@.len() == args@.len(),
    ensures
        match r {
            Ok(v) => expand_tmpl(strings_view(params@), values_view(args@), template@) == Ok::<ValueView, ErrorView>(v@),
            Err(e) => expand_tmpl(strings_view(params@), values_view(args@), template@) == Err::<ValueView, ErrorView>(e@),
        },
    decreases template, 0int,
{
    match template {
        Value::Symbol(name) => Ok(substitute_exec(name, params, args)),
        Value::List(list) => {
            proof {
                lemma_values_view(list@);
            }
            if list.len() == 0 {
                return Ok(copy_value(template));
            }
            if symbol_is(&list[0], "quasiquote") {
                if list.len() != 2 {
                    return Err(RispyError::RuntimeError(owned("quasiquote expects exactly 1 argument")));
                }
                quasiquote(&list[1], params, args)
            } else if symbol_is(&list[0], "unquote") {
                if list.len() != 2 {
                    return Err(RispyError::RuntimeError(owned("unquote expects exactly 1 argument")));
                }
                Err(RispyError::RuntimeError(owned("unquote outside of quasiquote")))
            } else if symbol_is(&list[0], "unquote-splicing") {
                Err(RispyError::RuntimeError(owned("unquote-splicing outside of quasiquote")))
            } else {
                match expand_elements(list, params, args) {
                    Ok(items) => Ok(Value::List(items)),
                    Err(e) => Err(e),
                }
            }
        },
        _ => Ok(copy_value(template)),
    }
}

fn expand_elements(list: &Vec<Value>, params: &Vec<String>, args: &Vec<Value>) -> (r: Result<Vec<Value>, RispyError>)
    requires
        params@.len() == args@.len(),
    ensures
        match r {
            Ok(vs) => expand_each(strings_view(params@), values_view(args@), values_view(list@)) == Ok::<Seq<ValueView>, ErrorView>(values_view(vs@)),
            Err(e) => expand_each(strings_view(params@), values_view(args@), values_view(list@)) == Err::<Seq<ValueView>, ErrorView>(e@),
        },
    decreases list, 0int,
{
    let ghost ps = strings_view(params@);
    let ghost avs = values_view(args@);
    let ghost l = values_view(list@);
    proof {
        lemma_values_view(list@);
    }
    let mut out: Vec<Value> = Vec::new();
    let mut i: usize = 0;
    assert(l.skip(0) =~= l);
    while i < list.len()
        invariant
            i <= list@.len(),
            l == values_view(list@),
            l.len() == list@.len(),
            forall|j: int| 0 <= j < list@.len() ==> l[j] == (#[trigger] list@[j])@,
            ps == strings_view(params@),
            avs == values_view(args@),
            params@.len() == args@.len(),
            expand_each(ps, avs, l) == match expand_each(ps, avs, l.skip(i as int)) {
                Ok(r) => Ok(values_view(out@) + r),
                Err(e) => Err(e),
            },
        decreases list.len() - i,
    {
        assert(decreases_to!(list => list@[i as int]));
        let ghost rest = l.skip(i as int);
        assert(rest[0] == l[i as int]);
        assert(rest.drop_first() =~= l.skip(i + 1));
        match expand_template(&list[i], params, args) {
            Ok(v) => {
                let ghost before = values_view(out@);
                let ghost old_out = out@;
                let ghost vv = v;
                out.push(v);
                proof {
                    crate::value::lemma_values_view_push(old_out, vv);
                    match expand_each(ps, avs, l.skip(i + 1)) {
                        Ok(r) => {
                            assert(before + (seq![vv@] + r) =~= values_view(out@) + r);
                        },
                        Err(_) => {},
                    }
                }
            },
            Err(e) => {
                return Err(e);
            },
        }
        i = i + 1;
    }
    assert(l.skip(i as int) =~= Seq::<ValueView>::empty());
    assert(values_view(out@) + Seq::<ValueView>::empty() =~= values_view(out@));
    Ok(out)
}

fn quasiquote(expr: &Value, params: &Vec<String>, args: &Vec<Value>) -> (r: Result<Value, RispyError>)
    requires
        params@.len() == args@.len(),
    ensures
        match r {
            Ok(v) => quasi(strings_view(params@), values_view(args@), expr@) == Ok::<ValueView, ErrorView>(v@),
            Err(e) => quasi(strings_view(params@), values_view(args@), expr@) == Err::<ValueView, ErrorView>(e@),
        },
    decreases expr, 1int,
{
    match expr {
        Value::List(list) => {
            proof {
                lemma_values_view(list@);
            }
            if list.len() == 0 {
                return Ok(copy_value(expr));
            }
            if symbol_is(&list[0], "unquote") {
                if list.len() != 2 {
                    return Err(RispyError::RuntimeError(owned("unquote expects exactly 1 argument")));
                }
                expand_template(&list[1], params, args)
            } else if symbol_is(&list[0], "unquote-splicing") {
                Err(RispyError::RuntimeError(owned("unquote-splicing not valid in this position")))
            } else {
                match quasiquote_elements(list, params, args) {
                    Ok(items) => Ok(Value::List(items)),
                    Err(e) => Err(e),
                }
            }
        },
        _ => Ok(copy_value(expr)),
    }
}

fn quasiquote_elements(list: &Vec<Value>, params: &Vec<String>, args: &Vec<Value>) -> (r: Result<Vec<Value>, RispyError>)
    requires
        params@.len() == args@.len(),
    ensures
        match r {
            Ok(vs) => quasi_list(strings_view(params@), values_view(args@), values_view(list@)) == Ok::<Seq<ValueView>, ErrorView>(values_view(vs@)),
            Err(e) => quasi_list(strings_view(params@), values_view(args@), values_view(list@)) == Err::<Seq<ValueView>, ErrorView>(e@),
        },
    decreases list, 1int,
{
    let ghost ps = strings_view(params@);
    let ghost avs = values_view(args@);
    let ghost l = values_view(list@);
    proof {
        lemma_values_view(list@);
    }
    let mut out: Vec<Value> = Vec::new();
    let mut i: usize = 0;
    assert(l.skip(0) =~= l);
    while i < list.len()
        invariant
            i <= list@.len(),
            l == values_view(list@),
            l.len() == list@.len(),
            forall|j: int| 0 <= j < list@.len() ==> l[j] == (#[trigger] list@[j])@,
            ps == strings_view(params@),
            avs == values_view(args@),
            params@.len() == args@.len(),
            quasi_list(ps, avs, l) == match quasi_list(ps, avs, l.skip(i as int)) {
                Ok(r) => Ok(values_view(out@) + r),
                Err(e) => Err(e),
            },
        decreases list.len() - i,
    {
        assert(decreases_to!(list => list@[i as int]));
        let ghost rest = l.skip(i as int);
        assert(rest[0] == l[i as int]);
        assert(rest.drop_first() =~= l.skip(i + 1));
        let ghost before = values_view(out@);
        let item = &list[i];
        let mut spliced = false;
        match item {
            Value::List(inner) => {
                proof {
                    lemma_values_view(inner@);
                }
                if inner.len() > 0 && symbol_is(&inner[0], "unquote-splicing") {
                    spliced = true;
                    if inner.len() != 2 {
                        return Err(RispyError::RuntimeError(owned("unquote-splicing expects exactly 1 argument")));
                    }
                    assert(decreases_to!(list => inner@[1]));
                    match expand_template(&inner[1], params, args) {
                        Ok(Value::List(mut sl)) => {
                            let ghost sv = values_view(sl@);
                            let ghost sl0 = sl@;
                            let ghost old_out = out@;
                            out.append(&mut sl);
                            proof {
                                crate::value::lemma_values_view_append(old_out, sl0);
                                assert(values_view(out@) == before + sv);
                                match quasi_list(ps, avs, l.skip(i + 1)) {
                                    Ok(r) => {
                                        assert(before + (sv + r) =~= values_view(out@) + r);
                                    },
                                    Err(_) => {},
                                }
                            }
                        },
                        Ok(_) => {
                            return Err(RispyError::RuntimeError(owned("unquote-splicing requires a list")));
                        },
                        Err(e) => {
                            return Err(e);
                        },
                    }
                }
            },
            _ => {},
        }
        if !spliced {
            match quasiquote(item, params, args) {
                Ok(v) => {
                    let ghost old_out = out@;
                    let ghost vv = v;
                    out.push(v);
                    proof {
                        crate::value::lemma_values_view_push(old_out, vv);
                        match quasi_list(ps, avs, l.skip(i + 1)) {
                            Ok(r) => {
                                assert(before + (seq![vv@] + r) =~= values_view(out@) + r);
                            },
                            Err(_) => {},
                        }
                    }
                },
                Err(e) => {
                    return Err(e);
                },
            }
        }
        i = i + 1;
    }
    assert(l.skip(i as int) =~= Seq::<ValueView>::empty());
    assert(values_view(out@) + Seq::<ValueView>::empty() =~= values_view(out@));
    Ok(out)
}

/// The error for a macro call with the wrong number of arguments.
pub open spec fn call_arity_error(name: Seq<char>, expected: nat, got: nat) -> ErrorView {
    ErrorView::Arity("Macro "@ + name + " expects "@ + decimal(expected) + " arguments, got "@ + decimal(got))
}

/// A macro applied to the (unevaluated) arguments of a call.
pub open spec fn expand_call(m: FunctionView, args: Seq<ValueView>) -> Result<ValueView, ErrorView> {
    match m {
        FunctionView::Macro { name, params, body } => if args.len() != params.len() {
            Err(call_arity_error(name, params.len(), args.len()))
        } else {
            expand_tmpl(params, args, body)
        },
        _ => Err(runtime(seq![])),
    }
}

/// The macro a list calls: its head is a symbol naming a known macro.
pub open spec fn macro_head(env: Seq<Map<Seq<char>, FunctionView>>, l: Seq<ValueView>) -> Option<FunctionView> {
    if l.len() > 0 {
        match l[0] {
            ValueView::Symbol(n) => lookup(env, n),
            _ => None,
        }
    } else {
        None
    }
}

/// One round of expansion: a macro call is replaced by its expansion, and any
/// other list has each element expanded once.
pub open spec fn expand_once_spec(env: Seq<Map<Seq<char>, FunctionView>>, e: ValueView) -> Result<ValueView, ErrorView>
    decreases e,
{
    match e {
        ValueView::List(l) => if l.len() == 0 {
            Ok(e)
        } else {
            match macro_head(env, l) {
                Some(m) => expand_call(m, l.drop_first()),
                None => match expand_once_each(env, l) {
                    Ok(r) => Ok(ValueView::List(r)),
                    Err(x) => Err(x),
                },
            }
        },
        _ => Ok(e),
    }
}

pub open spec fn expand_once_each(env: Seq<Map<Seq<char>, FunctionView>>, l: Seq<ValueView>) -> Result<Seq<ValueView>, ErrorView>
    decreases l,
{
    if l.len() == 0 {
        Ok(seq![])
    } else {
        match expand_once_spec(env, l[0]) {
            Ok(v) => match expand_once_each(env, l.drop_first()) {
                Ok(r) => Ok(seq![v] + r),
                Err(x) => Err(x),
            },
            Err(x) => Err(x),
        }
    }
}

/// The most rounds of expansion that may change an expression.
pub open spec fn max_expansions() -> nat {
    1000
}

pub open spec fn too_many_expansions() -> ErrorView {
    runtime("Macro expansion exceeded maximum iterations (possible infinite loop)"@)
}

/// Expansion repeated until a round changes nothing, after `n` rounds that did.
pub open spec fn expand_fix(env: Seq<Map<Seq<char>, FunctionView>>, e: ValueView, n: nat) -> Result<ValueView, ErrorView>
    decreases max_expansions() - n,
{
    if n >= max_expansions() {
        Err(too_many_expansions())
    } else {
        match expand_once_spec(env, e) {
            Ok(x) => if x == e {
                Ok(e)
            } else {
                expand_fix(env, x, n + 1)
            },
            Err(err) => Err(err),
        }
    }
}

proof fn lemma_template_errors(ps: Seq<Seq<char>>, args: Seq<ValueView>, t: ValueView)
    ensures
        expand_tmpl(ps, args, t) matches Err(x) ==> x is Runtime,
    decreases t, 0int,
{
    match t {
        ValueView::List(l) => if l.len() > 0 {
            if l[0] == ValueView::Symbol("quasiquote"@) {
                if l.len() == 2 {
                    lemma_quasi_errors(ps, args, l[1]);
                }
            } else if l[0] != ValueView::Symbol("unquote"@) && l[0] != ValueView::Symbol("unquote-splicing"@) {
                lemma_each_errors(ps, args, l);
            }
        },
        _ => {},
    }
}

proof fn lemma_each_errors(ps: Seq<Seq<char>>, args: Seq<ValueView>, l: Seq<ValueView>)
    ensures
        expand_each(ps, args, l) matches Err(x) ==> x is Runtime,
    decreases l, 0int,
{
    if l.len() > 0 {
        lemma_template_errors(ps, args, l[0]);
        lemma_each_errors(ps, args, l.drop_first());
    }
}

proof fn lemma_quasi_errors(ps: Seq<Seq<char>>, args: Seq<ValueView>, e: ValueView)
    ensures
        quasi(ps, args, e) matches Err(x) ==> x is Runtime,
    decreases e, 1int,
{
    match e {
        ValueView::List(l) => if l.len() > 0 {
            if l[0] == ValueView::Symbol("unquote"@) {
                if l.len() == 2 {
                    lemma_template_errors(ps, args, l[1]);
                }
            } else if l[0] != ValueView::Symbol("unquote-splicing"@) {
                lemma_quasi_list_errors(ps, args, l);
            }
        },
        _ => {},
    }
}

proof fn lemma_quasi_list_errors(ps: Seq<Seq<char>>, args: Seq<ValueView>, l: Seq<ValueView>)
    ensures
        quasi_list(ps, args, l) matches Err(x) ==> x is Runtime,
    decreases l, 1int,
{
    if l.len() > 0 {
        let item = l[0];
        match item {
            ValueView::List(il) => {
                if il.len() == 2 && il[0] == ValueView::Symbol("unquote-splicing"@) {
                    lemma_template_errors(ps, args, il[1]);
                }
            },
            _ => {},
        }
        lemma_quasi_errors(ps, args, item);
        lemma_quasi_list_errors(ps, args, l.drop_first());
    }
}

/// A macro call fails with an arity error exactly when the number of
/// arguments differs from the number of parameters; otherwise it is the
/// template expanded with each parameter bound to its (unevaluated) argument.
pub proof fn law_macro_call_arity(name: Seq<char>, params: Seq<Seq<char>>, body: ValueView, args: Seq<ValueView>)
    ensures
        ({
            let r = expand_call(FunctionView::Macro { name: name, params: params, body: body }, args);
            &&& (r matches Err(x) && x is Arity) <==> args.len() != params.len()
            &&& args.len() != params.len() ==> r == Err::<ValueView, ErrorView>(call_arity_error(name, params.len(), args.len()))
            &&& args.len() == params.len() ==> r == expand_tmpl(params, args, body)
        }),
{
    lemma_template_errors(params, args, body);
}

/// Of two parameters with one name, the later one decides: a parameter added
/// last names the argument added with it, and every other name keeps what it
/// named; a name that is no parameter names nothing.
pub proof fn law_last_parameter_wins(ps: Seq<Seq<char>>, args: Seq<ValueView>, p: Seq<char>, a: ValueView, q: Seq<char>)
    ensures
        bound_value(ps.push(p), args.push(a), p) == Some(a),
        q != p ==> bound_value(ps.push(p), args.push(a), q) == bound_value(ps, args, q),
        !ps.contains(q) ==> bound_value(ps, args, q) is None,
    decreases ps.len(),
{
    assert(ps.push(p).drop_last() =~= ps);
    assert(args.push(a).drop_last() =~= args);
    if ps.len() > 0 && !ps.contains(q) {
        assert(ps.last() == ps[ps.len() - 1]);
        assert forall|i: int| 0 <= i < ps.drop_last().len() implies ps.drop_last()[i] != q by {
            assert(ps.drop_last()[i] == ps[i]);
        }
        law_last_parameter_wins(ps.drop_last(), args.drop_last(), p, a, q);
    }
}

/// Inside `quasiquote` everything but a list is kept as it is, a parameter's
/// symbol included; only `(unquote e)` puts the argument in.
pub proof fn law_quasiquote_keeps_atoms(ps: Seq<Seq<char>>, args: Seq<ValueView>, e: ValueView, p: Seq<char>)
    ensures
        !(e is List) ==> quasi(ps, args, e) == Ok::<ValueView, ErrorView>(e),
        quasi(ps, args, ValueView::List(seq![ValueView::Symbol("unquote"@), ValueView::Symbol(p)]))
            == Ok::<ValueView, ErrorView>(substitute(ps, args, p)),
{
    let l = seq![ValueView::Symbol("unquote"@), ValueView::Symbol(p)];
    assert(l[0] == ValueView::Symbol("unquote"@));
}

/// Where no macro is known, a round of expansion gives back the expression.
pub proof fn law_expand_once_without_macros(env: Seq<Map<Seq<char>, FunctionView>>, e: ValueView)
    requires
        forall|k: Seq<char>| #[trigger] lookup(env, k) is None,
    ensures
        expand_once_spec(env, e) == Ok::<ValueView, ErrorView>(e),
    decreases e,
{
    match e {
        ValueView::List(l) => {
            if l.len() > 0 {
                lemma_expand_each_without_macros(env, l);
            }
        },
        _ => {},
    }
}

proof fn lemma_expand_each_without_macros(env: Seq<Map<Seq<char>, FunctionView>>, l: Seq<ValueView>)
    requires
        forall|k: Seq<char>| #[trigger] lookup(env, k) is None,
    ensures
        expand_once_each(env, l) == Ok::<Seq<ValueView>, ErrorView>(l),
    decreases l,
{
    if l.len() > 0 {
        law_expand_once_without_macros(env, l[0]);
        lemma_expand_each_without_macros(env, l.drop_first());
        assert(seq![l[0]] + l.drop_first() =~= l);
    } else {
        assert(l =~= Seq::<ValueView>::empty());
    }
}

/// Where no macro is known, expansion gives back the expression.
pub proof fn law_expand_without_macros(env: Seq<Map<Seq<char>, FunctionView>>, e: ValueView)
    requires
        forall|k: Seq<char>| #[trigger] lookup(env, k) is None,
    ensures
        expand_fix(env, e, 0) == Ok::<ValueView, ErrorView>(e),
{
    law_expand_once_without_macros(env, e);
}

/// The result of expansion is a fixed point: one more round of expansion gives
/// it back unchanged.
pub proof fn law_expansion_is_fixed_point(env: Seq<Map<Seq<char>, FunctionView>>, e: ValueView, n: nat, r: ValueView)
    requires
        expand_fix(env, e, n) == Ok::<ValueView, ErrorView>(r),
    ensures
        expand_once_spec(env, r) == Ok::<ValueView, ErrorView>(r),
    decreases max_expansions() - n,
{
    if n < max_expansions() {
        match expand_once_spec(env, e) {
            Ok(x) => {
                if x != e {
                    law_expansion_is_fixed_point(env, x, n + 1, r);
                }
            },
            Err(_) => {},
        }
    }
}

/// Names generated with the same prefix at different counts differ.
pub proof fn law_gensym_distinct(prefix: Seq<char>, a: u64, b: u64)
    requires
        a != b,
    ensures
        prefix + "#"@ + decimal(a as nat) != prefix + "#"@ + decimal(b as nat),
{
    let p = prefix + "#"@;
    if p + decimal(a as nat) == p + decimal(b as nat) {
        assert((p + decimal(a as nat)).skip(p.len() as int) =~= decimal(a as nat));
        assert((p + decimal(b as nat)).skip(p.len() as int) =~= decimal(b as nat));
        crate::text::law_decimal_injective(a as nat, b as nat);
    }
}

/// Expands the macros of an expression before it is evaluated.
pub struct MacroExpander {
    macro_env: MacroEnvironment,
    gensym_counter: u64,
}

impl MacroExpander {
    /// The macros this expander knows.
    pub closed spec fn macros(&self) -> Seq<Map<Seq<char>, FunctionView>> {
        self.macro_env@
    }

    /// How many symbols it has generated (modulo 2^64).
    pub closed spec fn counter(&self) -> u64 {
        self.gensym_counter
    }

    pub closed spec fn wf(&self) -> bool {
        self.macro_env.wf()
    }

    pub fn new(macro_env: MacroEnvironment) -> (r: MacroExpander)
        requires
            macro_env.wf(),
        ensures
            r.wf(),
            r.macros() == macro_env@,
            r.counter() == 0,
    {
        MacroExpander { macro_env, gensym_counter: 0 }
    }

    /// A fresh symbol name: the prefix, `#`, and the number of names generated before.
    pub fn gensym(&mut self, prefix: &str) -> (s: String)
        requires
            old(self).wf(),
        ensures
            final(self).wf(),
            s@ == prefix@ + "#"@ + decimal(old(self).counter() as nat),
            final(self).counter() == (old(self).counter() + 1) % 0x1_0000_0000_0000_0000,
            final(self).macros() == old(self).macros(),
    {
        let id = self.gensym_counter;
        self.gensym_counter = if id == u64::MAX { 0 } else { id + 1 };
        let digits = decimal_string(id);
        join3(prefix, "#", digits.as_str())
    }

    /// Defines (or redefines) a macro.
    pub fn define_macro(&mut self, name: String, macro_func: MacroFunction)
        requires
            old(self).wf(),
        ensures
            final(self).wf(),
            final(self).macros() == crate::environment::bind(old(self).macros(), name@, macro_func@),
            final(self).counter() == old(self).counter(),
    {
        self.macro_env.define(name, macro_func)
    }

    /// Whether an expression is a call of a known macro.
    pub fn is_macro_call(&self, expr: &Value) -> (b: bool)
        requires
            self.wf(),
        ensures
            b == (expr@ matches ValueView::List(l) && macro_head(self.macros(), l) is Some),
    {
        match expr {
            Value::List(list) => {
                proof {
                    lemma_values_view(list@);
                }
                if list.len() == 0 {
                    return false;
                }
                match &list[0] {
                    Value::Symbol(name) => self.macro_env.has_macro(name.as_str()),
                    _ => false,
                }
            },
            _ => false,
        }
    }

    fn expand_macro_call(macro_func: &MacroFunction, list: &Vec<Value>) -> (r: Result<Value, RispyError>)
        requires
            list@.len() > 0,
        ensures
            match r {
                Ok(v) => expand_call(macro_func@, values_view(list@).drop_first()) == Ok::<ValueView, ErrorView>(v@),
                Err(e) => expand_call(macro_func@, values_view(list@).drop_first()) == Err::<ValueView, ErrorView>(e@),
            },
    {
        let args = crate::value::copy_from(list, 1);
        proof {
            crate::value::lemma_values_view_skip(list@, 1);
            lemma_values_view(list@);
            lemma_values_view(args@);
            assert(values_view(list@).drop_first() =~= values_view(list@).subrange(1, list@.len() as int));
        }
        if args.len() != macro_func.params.len() {
            let expected = decimal_string(macro_func.params.len() as u64);
            let got = decimal_string(args.len() as u64);
            let a = join3("Macro ", macro_func.name.as_str(), " expects ");
            let b = join3(a.as_str(), expected.as_str(), " arguments, got ");
            return Err(RispyError::ArityError(join(b.as_str(), got.as_str())));
        }
        expand_template(&macro_func.body, &macro_func.params, &args)
    }

    /// One round of macro expansion.
    pub fn expand_once(&self, expr: &Value) -> (r: Result<Value, RispyError>)
        requires
            self.wf(),
        ensures
            match r {
                Ok(v) => expand_once_spec(self.macros(), expr@) == Ok::<ValueView, ErrorView>(v@),
                Err(e) => expand_once_spec(self.macros(), expr@) == Err::<ValueView, ErrorView>(e@),
            },
        decreases expr,
    {
        match expr {
            Value::List(list) => {
                proof {
                    lemma_values_view(list@);
                }
                if list.len() == 0 {
                    return Ok(copy_value(expr));
                }
                let found = match &list[0] {
                    Value::Symbol(name) => self.macro_env.get(name.as_str()),
                    _ => None,
                };
                match found {
                    Some(m) => Self::expand_macro_call(&m, list),
                    None => match self.expand_once_elements(list) {
                        Ok(items) => Ok(Value::List(items)),
                        Err(e) => Err(e),
                    },
                }
            },
            _ => Ok(copy_value(expr)),
        }
    }

    fn expand_once_elements(&self, list: &Vec<Value>) -> (r: Result<Vec<Value>, RispyError>)
        requires
            self.wf(),
        ensures
            match r {
                Ok(vs) => expand_once_each(self.macros(), values_view(list@)) == Ok::<Seq<ValueView>, ErrorView>(values_view(vs@)),
                Err(e) => expand_once_each(self.macros(), values_view(list@)) == Err::<Seq<ValueView>, ErrorView>(e@),
            },
        decreases list,
    {
        let ghost env = self.macros();
        let ghost l = values_view(list@);
        proof {
            lemma_values_view(list@);
        }
        let mut out: Vec<Value> = Vec::new();
        let mut i: usize = 0;
        assert(l.skip(0) =~= l);
        while i < list.len()
            invariant
                i <= list@.len(),
                self.wf(),
                env == self.macros(),
                l == values_view(list@),
                l.len() == list@.len(),
                forall|j: int| 0 <= j < list@.len() ==> l[j] == (#[trigger] list@[j])@,
                expand_once_each(env, l) == match expand_once_each(env, l.skip(i as int)) {
                    Ok(r) => Ok(values_view(out@) + r),
                    Err(e) => Err(e),
                },
            decreases list.len() - i,
        {
            assert(decreases_to!(list => list@[i as int]));
            let ghost rest = l.skip(i as int);
            assert(rest[0] == l[i as int]);
            assert(rest.drop_first() =~= l.skip(i + 1));
            match self.expand_once(&list[i]) {
                Ok(v) => {
                    let ghost before = values_view(out@);
                    let ghost old_out = out@;
                    let ghost vv = v;
                    out.push(v);
                    proof {
                        crate::value::lemma_values_view_push(old_out, vv);
                        match expand_once_each(env, l.skip(i + 1)) {
                            Ok(r) => {
                                assert(before + (seq![vv@] + r) =~= values_view(out@) + r);
                            },
                            Err(_) => {},
                        }
                    }
                },
                Err(e) => {
                    return Err(e);
                },
            }
            i = i + 1;
        }
        assert(l.skip(i as int) =~= Seq::<ValueView>::empty());
        assert(values_view(out@) + Seq::<ValueView>::empty() =~= values_view(out@));
        Ok(out)
    }

    /// All macros of an expression expanded, round after round, until a round
    /// changes nothing; an error after too many rounds.
    pub fn expand(&self, expr: &Value) -> (r: Result<Value, RispyError>)
        requires
            self.wf(),
        ensures
            match r {
                Ok(v) => expand_fix(self.macros(), expr@, 0) == Ok::<ValueView, ErrorView>(v@),
                Err(e) => expand_fix(self.macros(), expr@, 0) == Err::<ValueView, ErrorView>(e@),
            },
    {
        let ghost env = self.macros();
        let mut current = copy_value(expr);
        let mut iteration_count: u64 = 0;
        loop
            invariant
                self.wf(),
                env == self.macros(),
                iteration_count <= 1000,
                expand_fix(env, expr@, 0) == expand_fix(env, current@, iteration_count as nat),
            decreases 1000 - iteration_count,
        {
            if iteration_count >= 1000 {
                return Err(RispyError::RuntimeError(owned("Macro expansion exceeded maximum iterations (possible infinite loop)")));
            }
            let expanded = self.expand_once(&current)?;
            if values_identical(&expanded, &current) {
                return Ok(current);
            }
            current = expanded;
            iteration_count = iteration_count + 1;
        }
    }
}
} // verus!
