use vstd::prelude::*;
use crate::error::{ErrorView, RispyError};
use crate::number::{law_num_lt_is_number_order, order_key, spec_is_nan, spec_is_zero, spec_num_lt, Arithmetic, Number};
use crate::value::render_in;
use crate::text::{join, owned, string_is};
use crate::value::{
    arity_error, check_arity, copy_value, expected_error, lemma_values_view, spec_car, spec_cdr,
    spec_cons, spec_is_empty_list, values_equal, values_view, view_equal, Arity, BuiltinFunction,
    Function, FunctionView, Value, ValueView,
};

verus! {

/// The primitive functions: their names, and how many arguments each takes.
pub open spec fn primitive_arity(name: Seq<char>) -> Option<usize> {
    if name == "+"@ || name == "-"@ || name == "*"@ || name == "/"@ || name == "="@ || name == "<"@
        || name == "cons"@ {
        Some(2usize)
    } else if name == "car"@ || name == "cdr"@ || name == "atom?"@ || name == "null?"@ || name
        == "print"@ {
        Some(1usize)
    } else {
        None
    }
}

/// The primitive function of that name, as a value.
pub open spec fn builtin_named(name: Seq<char>) -> Option<FunctionView> {
    match primitive_arity(name) {
        Some(k) => Some(FunctionView::Builtin { name: name, arity: Arity::Exact(k) }),
        None => None,
    }
}

pub open spec fn is_arithmetic(name: Seq<char>) -> bool {
    name == "+"@ || name == "-"@ || name == "*"@ || name == "/"@
}

/// What the host's arithmetic gives for the arithmetic primitive `name`.
pub open spec fn arithmetic_result<A: Arithmetic>(name: Seq<char>, a: Number, b: Number, h: A) -> Number {
    if name == "+"@ {
        h.spec_sum(a, b)
    } else if name == "-"@ {
        h.spec_difference(a, b)
    } else if name == "*"@ {
        h.spec_product(a, b)
    } else {
        h.spec_quotient(a, b)
    }
}

/// The result of applying a primitive to evaluated arguments with the host
/// `h`, and the line it prints, if any.
pub open spec fn builtin_outcome<A: Arithmetic>(name: Seq<char>, args: Seq<ValueView>, h: A) -> (Result<ValueView, ErrorView>, Option<Seq<char>>) {
    match primitive_arity(name) {
        None => (Err(ErrorView::Runtime("Unknown primitive: "@ + name)), None),
        Some(k) => if args.len() != k {
            (Err(arity_error(Arity::Exact(k), args.len())), None)
        } else if is_arithmetic(name) || name == "<"@ {
            match (args[0], args[1]) {
                (ValueView::Number(a), ValueView::Number(b)) => if name == "<"@ {
                    (Ok(ValueView::Bool(spec_num_lt(a.bits, b.bits))), None)
                } else if name == "/"@ && spec_is_zero(b.bits) {
                    (Err(ErrorView::Runtime("Division by zero"@)), None)
                } else {
                    (Ok(ValueView::Number(arithmetic_result(name, a, b, h))), None)
                },
                (ValueView::Number(_), other) => (Err(expected_error("Expected number, got "@, other)), None),
                (other, _) => (Err(expected_error("Expected number, got "@, other)), None),
            }
        } else if name == "="@ {
            (Ok(ValueView::Bool(view_equal(args[0], args[1]))), None)
        } else if name == "car"@ {
            (spec_car(args[0]), None)
        } else if name == "cdr"@ {
            (spec_cdr(args[0]), None)
        } else if name == "cons"@ {
            (Ok(spec_cons(args[0], args[1])), None)
        } else if name == "atom?"@ {
            (Ok(ValueView::Bool(!(args[0] is List))), None)
        } else if name == "null?"@ {
            (Ok(ValueView::Bool(spec_is_empty_list(args[0]))), None)
        } else {
            (Ok(ValueView::Nil), Some(render_in(args[0], h)))
        },
    }
}

proof fn lemma_operator_names_distinct()
    ensures
        "+"@ != "-"@, "+"@ != "*"@, "+"@ != "/"@, "+"@ != "<"@,
        "-"@ != "*"@, "-"@ != "/"@, "-"@ != "<"@,
        "*"@ != "/"@, "*"@ != "<"@,
        "/"@ != "<"@,
        "+"@.len() == 1, "-"@.len() == 1, "*"@.len() == 1, "/"@.len() == 1, "<"@.len() == 1,
{
    lemma_primitive_names();
    assert("+"@[0] == '+' && "-"@[0] == '-' && "*"@[0] == '*' && "/"@[0] == '/' && "<"@[0] == '<');
}

/// The arithmetic primitives compute with the host on any two numbers and
/// print nothing: `+`, `-` and `*` give the host's sum, difference and
/// product of the operands in order; `/` gives the host's quotient of the
/// first by the second whenever the divisor is not zero, whatever the
/// dividend, and the error "Division by zero" exactly when the divisor is
/// zero.
pub proof fn law_arithmetic_primitives<A: Arithmetic>(a: Number, b: Number, h: A)
    ensures
        builtin_outcome("+"@, seq![ValueView::Number(a), ValueView::Number(b)], h)
            == (Ok::<ValueView, ErrorView>(ValueView::Number(h.spec_sum(a, b))), None::<Seq<char>>),
        builtin_outcome("-"@, seq![ValueView::Number(a), ValueView::Number(b)], h)
            == (Ok::<ValueView, ErrorView>(ValueView::Number(h.spec_difference(a, b))), None::<Seq<char>>),
        builtin_outcome("*"@, seq![ValueView::Number(a), ValueView::Number(b)], h)
            == (Ok::<ValueView, ErrorView>(ValueView::Number(h.spec_product(a, b))), None::<Seq<char>>),
        !spec_is_zero(b.bits) ==> builtin_outcome("/"@, seq![ValueView::Number(a), ValueView::Number(b)], h)
            == (Ok::<ValueView, ErrorView>(ValueView::Number(h.spec_quotient(a, b))), None::<Seq<char>>),
        spec_is_zero(b.bits) ==> builtin_outcome("/"@, seq![ValueView::Number(a), ValueView::Number(b)], h)
            == (Err::<ValueView, ErrorView>(ErrorView::Runtime("Division by zero"@)), None::<Seq<char>>),
{
    lemma_operator_names_distinct();
}

/// `<` on two numbers other than NaN says whether the first stands before the
/// second on the number line, and prints nothing; on a NaN it is false.
pub proof fn law_less_than_primitive<A: Arithmetic>(a: Number, b: Number, h: A)
    ensures
        !spec_is_nan(a.bits) && !spec_is_nan(b.bits) ==> builtin_outcome("<"@, seq![ValueView::Number(a), ValueView::Number(b)], h)
            == (Ok::<ValueView, ErrorView>(ValueView::Bool(order_key(a.bits) < order_key(b.bits))), None::<Seq<char>>),
        spec_is_nan(a.bits) || spec_is_nan(b.bits) ==> builtin_outcome("<"@, seq![ValueView::Number(a), ValueView::Number(b)], h)
            == (Ok::<ValueView, ErrorView>(ValueView::Bool(false)), None::<Seq<char>>),
{
    lemma_operator_names_distinct();
    if !spec_is_nan(a.bits) && !spec_is_nan(b.bits) {
        law_num_lt_is_number_order(a.bits, b.bits);
    }
}

proof fn lemma_list_names_distinct()
    ensures
        ({
            let ops = seq!["+"@, "-"@, "*"@, "/"@, "<"@, "="@];
            let lists = seq!["car"@, "cdr"@, "cons"@, "atom?"@, "null?"@];
            &&& forall|i: int, j: int| 0 <= i < ops.len() && 0 <= j < lists.len() ==> ops[i] != lists[j]
            &&& forall|i: int, j: int| 0 <= i < lists.len() && 0 <= j < lists.len() && i != j ==> lists[i] != lists[j]
            &&& forall|i: int| 0 <= i < ops.len() && i != 5 ==> ops[i] != "="@
        }),
        primitive_arity("car"@) == Some(1usize),
        primitive_arity("cdr"@) == Some(1usize),
        primitive_arity("atom?"@) == Some(1usize),
        primitive_arity("null?"@) == Some(1usize),
        primitive_arity("cons"@) == Some(2usize),
        primitive_arity("="@) == Some(2usize),
{
    lemma_primitive_names();
    assert("car"@[1] != "cdr"@[1]);
    assert("car"@[2] != "cons"@[2]);
    assert("cdr"@[1] != "cons"@[1]);
    assert("+"@[0] != "="@[0] && "-"@[0] != "="@[0] && "*"@[0] != "="@[0] && "/"@[0] != "="@[0] && "<"@[0] != "="@[0]);
    let ops = seq!["+"@, "-"@, "*"@, "/"@, "<"@, "="@];
    let lists = seq!["car"@, "cdr"@, "cons"@, "atom?"@, "null?"@];
    assert forall|i: int, j: int| 0 <= i < ops.len() && 0 <= j < lists.len() implies ops[i] != lists[j] by {
        assert(ops[i].len() == 1);
        assert(lists[j].len() >= 3);
    }
    assert forall|i: int, j: int| 0 <= i < lists.len() && 0 <= j < lists.len() && i != j implies lists[i] != lists[j] by {
        if lists[i].len() == lists[j].len() {
            assert(lists[i][0] != lists[j][0] || lists[i][1] != lists[j][1] || lists[i][2] != lists[j][2]);
        }
    }
}

/// The list primitives fit together: `car` of what `cons` builds is the head
/// put in front, and `cdr` of it is the list (or nil, as the empty list) it
/// was put in front of; what `cons` builds is neither empty nor an atom; nil
/// and the empty list are empty, and every value other than a list is an
/// atom. None of them prints.
pub proof fn law_list_primitives<A: Arithmetic>(x: ValueView, t: ValueView, v: ValueView, h: A)
    ensures
        ({
            let c = builtin_outcome("cons"@, seq![x, t], h);
            &&& c.0 is Ok && c.1 is None
            &&& builtin_outcome("car"@, seq![c.0->Ok_0], h) == (Ok::<ValueView, ErrorView>(x), None::<Seq<char>>)
            &&& t matches ValueView::List(_) ==> builtin_outcome("cdr"@, seq![c.0->Ok_0], h) == (Ok::<ValueView, ErrorView>(t), None::<Seq<char>>)
            &&& t is Nil ==> builtin_outcome("cdr"@, seq![c.0->Ok_0], h) == (Ok::<ValueView, ErrorView>(ValueView::List(seq![])), None::<Seq<char>>)
            &&& builtin_outcome("null?"@, seq![c.0->Ok_0], h) == (Ok::<ValueView, ErrorView>(ValueView::Bool(false)), None::<Seq<char>>)
            &&& builtin_outcome("atom?"@, seq![c.0->Ok_0], h) == (Ok::<ValueView, ErrorView>(ValueView::Bool(false)), None::<Seq<char>>)
        }),
        builtin_outcome("null?"@, seq![ValueView::Nil], h) == (Ok::<ValueView, ErrorView>(ValueView::Bool(true)), None::<Seq<char>>),
        builtin_outcome("null?"@, seq![ValueView::List(seq![])], h) == (Ok::<ValueView, ErrorView>(ValueView::Bool(true)), None::<Seq<char>>),
        !(v is List) ==> builtin_outcome("atom?"@, seq![v], h) == (Ok::<ValueView, ErrorView>(ValueView::Bool(true)), None::<Seq<char>>),
{
    lemma_list_names_distinct();
    lemma_operator_names_distinct();
    let ops = seq!["+"@, "-"@, "*"@, "/"@, "<"@, "="@];
    let lists = seq!["car"@, "cdr"@, "cons"@, "atom?"@, "null?"@];
    assert(ops[0] == "+"@ && ops[1] == "-"@ && ops[2] == "*"@ && ops[3] == "/"@ && ops[4] == "<"@ && ops[5] == "="@);
    assert(lists[0] == "car"@ && lists[1] == "cdr"@ && lists[2] == "cons"@ && lists[3] == "atom?"@ && lists[4] == "null?"@);
    if t is List || t is Nil {
        crate::value::law_car_cdr_of_cons(x, t);
    }
    match t {
        ValueView::List(l) => {
            assert((seq![x] + l).drop_first() =~= l);
        },
        ValueView::Nil => {
            assert(seq![x].drop_first() =~= Seq::<ValueView>::empty());
        },
        _ => {},
    }
}

/// `=` is symmetric, holds of every value without NaN and itself, and on two
/// numbers says whether they are equal numbers (+0 and -0 are; a NaN equals
/// nothing). It prints nothing.
pub proof fn law_equality_primitive<A: Arithmetic>(x: ValueView, y: ValueView, a: Number, b: Number, h: A)
    ensures
        builtin_outcome("="@, seq![x, y], h).1 is None,
        builtin_outcome("="@, seq![x, y], h) == builtin_outcome("="@, seq![y, x], h),
        crate::value::nan_free(x) ==> builtin_outcome("="@, seq![x, x], h).0 == Ok::<ValueView, ErrorView>(ValueView::Bool(true)),
        builtin_outcome("="@, seq![ValueView::Number(a), ValueView::Number(b)], h).0 == Ok::<ValueView, ErrorView>(ValueView::Bool(
            !spec_is_nan(a.bits) && !spec_is_nan(b.bits) && order_key(a.bits) == order_key(b.bits),
        )),
{
    lemma_list_names_distinct();
    lemma_operator_names_distinct();
    let ops = seq!["+"@, "-"@, "*"@, "/"@, "<"@, "="@];
    assert(ops[0] == "+"@ && ops[1] == "-"@ && ops[2] == "*"@ && ops[3] == "/"@ && ops[4] == "<"@ && ops[5] == "="@);
    crate::value::law_equal_symmetric(x, y);
    if crate::value::nan_free(x) {
        crate::value::law_equal_reflexive(x);
    }
    crate::number::law_num_eq_is_number_equality(a.bits, b.bits);
}

/// The names of the primitives, character by character.
pub proof fn lemma_primitive_names()
    ensures
        "+"@ =~= seq!['+'],
        "-"@ =~= seq!['-'],
        "*"@ =~= seq!['*'],
        "/"@ =~= seq!['/'],
        "="@ =~= seq!['='],
        "<"@ =~= seq!['<'],
        "car"@ =~= seq!['c', 'a', 'r'],
        "cdr"@ =~= seq!['c', 'd', 'r'],
        "cons"@ =~= seq!['c', 'o', 'n', 's'],
        "atom?"@ =~= seq!['a', 't', 'o', 'm', '?'],
        "null?"@ =~= seq!['n', 'u', 'l', 'l', '?'],
        "print"@ =~= seq!['p', 'r', 'i', 'n', 't'],
{
    reveal_strlit("+");
    reveal_strlit("-");
    reveal_strlit("*");
    reveal_strlit("/");
    reveal_strlit("=");
    reveal_strlit("<");
    reveal_strlit("car");
    reveal_strlit("cdr");
    reveal_strlit("cons");
    reveal_strlit("atom?");
    reveal_strlit("null?");
    reveal_strlit("print");
    assert("+"@ =~= seq!['+']);
    assert("-"@ =~= seq!['-']);
    assert("*"@ =~= seq!['*']);
    assert("/"@ =~= seq!['/']);
    assert("="@ =~= seq!['=']);
    assert("<"@ =~= seq!['<']);
    assert("car"@ =~= seq!['c', 'a', 'r']);
    assert("cdr"@ =~= seq!['c', 'd', 'r']);
    assert("cons"@ =~= seq!['c', 'o', 'n', 's']);
    assert("atom?"@ =~= seq!['a', 't', 'o', 'm', '?']);
    assert("null?"@ =~= seq!['n', 'u', 'l', 'l', '?']);
    assert("print"@ =~= seq!['p', 'r', 'i', 'n', 't']);
}

fn primitive(name: &str, arity: usize) -> (f: Function)
    ensures
        f@ == (FunctionView::Builtin { name: name@, arity: Arity::Exact(arity) }),
{
    Function::Builtin(BuiltinFunction { name: owned(name), arity: Arity::Exact(arity) })
}

/// The primitive functions with their names, in a fixed order.
pub fn create_builtin_registry() -> (r: Vec<(String, Function)>)
    ensures
        r@.len() == 12,
        forall|i: int| 0 <= i < r@.len() ==> builtin_named((#[trigger] r@[i]).0@) == Some(r@[i].1@),
        forall|name: Seq<char>| builtin_named(name) is Some ==> exists|i: int| 0 <= i < r@.len() && (#[trigger] r@[i]).0@ == name,
{
    let mut r: Vec<(String, Function)> = Vec::new();
    r.push((owned("+"), primitive("+", 2)));
    r.push((owned("-"), primitive("-", 2)));
    r.push((owned("*"), primitive("*", 2)));
    r.push((owned("/"), primitive("/", 2)));
    r.push((owned("="), primitive("=", 2)));
    r.push((owned("<"), primitive("<", 2)));
    r.push((owned("car"), primitive("car", 1)));
    r.push((owned("cdr"), primitive("cdr", 1)));
    r.push((owned("cons"), primitive("cons", 2)));
    r.push((owned("atom?"), primitive("atom?", 1)));
    r.push((owned("null?"), primitive("null?", 1)));
    r.push((owned("print"), primitive("print", 1)));
    proof {
        lemma_primitive_names();
        assert(builtin_named(r@[0].0@) == Some(r@[0].1@));
        assert(builtin_named(r@[1].0@) == Some(r@[1].1@));
        assert(builtin_named(r@[2].0@) == Some(r@[2].1@));
        assert(builtin_named(r@[3].0@) == Some(r@[3].1@));
        assert(builtin_named(r@[4].0@) == Some(r@[4].1@));
        assert(builtin_named(r@[5].0@) == Some(r@[5].1@));
        assert(builtin_named(r@[6].0@) == Some(r@[6].1@));
        assert(builtin_named(r@[7].0@) == Some(r@[7].1@));
        assert(builtin_named(r@[8].0@) == Some(r@[8].1@));
        assert(builtin_named(r@[9].0@) == Some(r@[9].1@));
        assert(builtin_named(r@[10].0@) == Some(r@[10].1@));
        assert(builtin_named(r@[11].0@) == Some(r@[11].1@));
        assert forall|name: Seq<char>| builtin_named(name) is Some implies exists|i: int| 0 <= i < r@.len() && (#[trigger] r@[i]).0@ == name by {
            if name == "+"@ { assert(r@[0].0@ == name); }
            else if name == "-"@ { assert(r@[1].0@ == name); }
            else if name == "*"@ { assert(r@[2].0@ == name); }
            else if name == "/"@ { assert(r@[3].0@ == name); }
            else if name == "="@ { assert(r@[4].0@ == name); }
            else if name == "<"@ { assert(r@[5].0@ == name); }
            else if name == "car"@ { assert(r@[6].0@ == name); }
            else if name == "cdr"@ { assert(r@[7].0@ == name); }
            else if name == "cons"@ { assert(r@[8].0@ == name); }
            else if name == "atom?"@ { assert(r@[9].0@ == name); }
            else if name == "null?"@ { assert(r@[10].0@ == name); }
            else { assert(r@[11].0@ == name); }
        }
    }
    r
}

/// The primitive function of that name.
pub fn lookup_builtin(name: &str) -> (r: Option<Function>)
    ensures
        match builtin_named(name@) {
            Some(f) => r matches Some(g) && g@ == f,
            None => r is None,
        },
{
    let registry = create_builtin_registry();
    let key = owned(name);
    let mut i: usize = 0;
    while i < registry.len()
        invariant
            i <= registry@.len(),
            key@ == name@,
            registry@.len() == 12,
            forall|j: int| 0 <= j < registry@.len() ==> builtin_named((#[trigger] registry@[j]).0@) == Some(registry@[j].1@),
            forall|nm: Seq<char>| builtin_named(nm) is Some ==> exists|j: int| 0 <= j < registry@.len() && (#[trigger] registry@[j]).0@ == nm,
            forall|j: int| 0 <= j < i ==> (#[trigger] registry@[j]).0@ != name@,
        decreases registry.len() - i,
    {
        if registry[i].0 == key {
            assert(builtin_named(registry@[i as int].0@) == Some(registry@[i as int].1@));
            return Some(crate::value::copy_function(&registry[i].1));
        }
        i = i + 1;
    }
    None
}


fn arity_of(name: &str) -> (r: Option<usize>)
    ensures
        r == primitive_arity(name@),
{
    let s = owned(name);
    if string_is(&s, "+") || string_is(&s, "-") || string_is(&s, "*") || string_is(&s, "/")
        || string_is(&s, "=") || string_is(&s, "<") || string_is(&s, "cons") {
        Some(2)
    } else if string_is(&s, "car") || string_is(&s, "cdr") || string_is(&s, "atom?") || string_is(&s, "null?")
        || string_is(&s, "print") {
        Some(1)
    } else {
        None
    }
}

/// Applies the primitive of that name to evaluated arguments. `+`, `-`, `*`
/// and `/` take their number from `arith`; `print` appends the printed form
/// of its argument to `output`.
pub fn apply_builtin<A: Arithmetic>(name: &str, args: &Vec<Value>, arith: &A, output: &mut Vec<String>) -> (r: Result<Value, RispyError>)
    ensures
        builtin_outcome(name@, values_view(args@), *arith).0 == crate::value::result_view(r),
        match builtin_outcome(name@, values_view(args@), *arith).1 {
            Some(line) => final(output)@.len() == old(output)@.len() + 1
                && final(output)@.drop_last() == old(output)@
                && final(output)@.last()@ == line,
            None => final(output)@ == old(output)@,
        },
{
    proof {
        lemma_values_view(args@);
        lemma_primitive_names();
    }
    let ghost a = values_view(args@);
    let k = match arity_of(name) {
        Some(k) => k,
        None => {
            return Err(RispyError::RuntimeError(join("Unknown primitive: ", name)));
        },
    };
    match check_arity(args.as_slice(), &Arity::Exact(k)) {
        Ok(()) => {},
        Err(e) => {
            return Err(e);
        },
    }
    let s = owned(name);
    if string_is(&s, "+") || string_is(&s, "-") || string_is(&s, "*") || string_is(&s, "/") || string_is(&s, "<") {
        let x = match args[0].expect_number() {
            Ok(x) => x,
            Err(e) => {
                return Err(e);
            },
        };
        let y = match args[1].expect_number() {
            Ok(y) => y,
            Err(e) => {
                return Err(e);
            },
        };
        if string_is(&s, "<") {
            Ok(Value::Bool(x.num_lt(&y)))
        } else if string_is(&s, "/") && y.is_zero() {
            Err(RispyError::RuntimeError(owned("Division by zero")))
        } else if string_is(&s, "+") {
            Ok(Value::Number(arith.sum(x, y)))
        } else if string_is(&s, "-") {
            Ok(Value::Number(arith.difference(x, y)))
        } else if string_is(&s, "*") {
            Ok(Value::Number(arith.product(x, y)))
        } else {
            Ok(Value::Number(arith.quotient(x, y)))
        }
    } else if string_is(&s, "=") {
        Ok(Value::Bool(values_equal(&args[0], &args[1])))
    } else if string_is(&s, "car") {
        match args[0].car() {
            Ok(v) => Ok(copy_value(v)),
            Err(e) => Err(e),
        }
    } else if string_is(&s, "cdr") {
        args[0].cdr()
    } else if string_is(&s, "cons") {
        Ok(copy_value(&args[0]).cons(copy_value(&args[1])))
    } else if string_is(&s, "atom?") {
        Ok(Value::Bool(crate::value::is_atom(&args[0])))
    } else if string_is(&s, "null?") {
        Ok(Value::Bool(args[0].is_empty_list()))
    } else {
        let text = args[0].display(arith);
        output.push(text);
        proof {
            assert(output@.drop_last() =~= old(output)@);
        }
        Ok(Value::Nil)
    }
}
} // verus!
