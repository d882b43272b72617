use vstd::prelude::*;
use crate::error::{ErrorView, RispyError};
use crate::number::{spec_is_nan, spec_num_eq, Arithmetic, Number};
use crate::text::{chars_of, decimal, decimal_string, join, join3, owned, string_from_chars};

verus! {

/// A value of the language.
#[derive(Debug, PartialEq)]
pub enum Value {
    Nil,
    Bool(bool),
    Number(Number),
    String(String),
    Symbol(String),
    List(Vec<Value>),
    Function(Box<Function>),
}

/// A callable value.
#[derive(Debug, PartialEq)]
pub enum Function {
    Builtin(BuiltinFunction),
    UserDefined(Box<UserFunction>),
    Macro(Box<MacroFunction>),
}

/// A primitive function: its name and the number of arguments it takes.
#[derive(Debug, Clone, PartialEq)]
pub struct BuiltinFunction {
    pub name: String,
    pub arity: Arity,
}

/// A function defined by the program. A call evaluates its body in a new
/// scope whose parent is `closure`, the scope the function was defined in.
/// Two defined functions are equal when their names, parameters and bodies
/// are; where they were defined is not compared.
#[derive(Debug, Clone)]
pub struct UserFunction {
    pub name: Option<String>,
    pub params: Vec<String>,
    pub body: Box<Value>,
    pub closure: usize,
}

/// A macro: a template with parameters, expanded before evaluation.
#[derive(Debug, Clone, PartialEq)]
pub struct MacroFunction {
    pub name: String,
    pub params: Vec<String>,
    pub body: Box<Value>,
}

/// How many arguments a function accepts.
#[derive(Debug, Clone, Copy, PartialEq, Eq, Structural)]
pub enum Arity {
    Exact(usize),
    AtLeast(usize),
    Range(usize, usize),
    Variadic,
}

/// A value as a mathematical object: strings become character sequences and
/// lists become sequences.
pub enum ValueView {
    Nil,
    Bool(bool),
    Number(Number),
    Str(Seq<char>),
    Symbol(Seq<char>),
    List(Seq<ValueView>),
    Function(Box<FunctionView>),
}

/// A callable value as a mathematical object.
#[allow(inconsistent_fields)]
pub enum FunctionView {
    Builtin { name: Seq<char>, arity: Arity },
    User { name: Option<Seq<char>>, params: Seq<Seq<char>>, body: ValueView, closure: nat },
    Macro { name: Seq<char>, params: Seq<Seq<char>>, body: ValueView },
}

pub open spec fn strings_view(s: Seq<String>) -> Seq<Seq<char>> {
    s.map_values(|x: String| x@)
}

/// Pushing a string pushes its characters onto the strings seen as text.
pub proof fn lemma_strings_push(a: Seq<String>, b: Seq<String>)
    requires
        b.len() == a.len() + 1,
        b.drop_last() == a,
    ensures
        strings_view(b) == strings_view(a).push(b.last()@),
{
    assert forall|i: int| 0 <= i < a.len() implies #[trigger] b[i] == a[i] by {
        assert(b[i] == b.drop_last()[i]);
    }
    assert(strings_view(b) =~= strings_view(a).push(b.last()@));
}

pub open spec fn value_view(v: Value) -> ValueView
    decreases v,
{
    match v {
        Value::Nil => ValueView::Nil,
        Value::Bool(b) => ValueView::Bool(b),
        Value::Number(n) => ValueView::Number(n),
        Value::String(s) => ValueView::Str(s@),
        Value::Symbol(s) => ValueView::Symbol(s@),
        Value::List(l) => ValueView::List(values_view(l@)),
        Value::Function(f) => ValueView::Function(Box::new(function_view(*f))),
    }
}

pub open spec fn values_view(s: Seq<Value>) -> Seq<ValueView>
    decreases s,
{
    if s.len() == 0 {
        seq![]
    } else {
        values_view(s.drop_last()).push(value_view(s.last()))
    }
}

pub open spec fn function_view(f: Function) -> FunctionView
    decreases f,
{
    match f {
        Function::Builtin(b) => FunctionView::Builtin { name: b.name@, arity: b.arity },
        Function::UserDefined(u) => FunctionView::User {
            name: match u.name {
                Some(n) => Some(n@),
                None => None,
            },
            params: strings_view(u.params@),
            body: value_view(*u.body),
            closure: u.closure as nat,
        },
        Function::Macro(m) => FunctionView::Macro {
            name: m.name@,
            params: strings_view(m.params@),
            body: value_view(*m.body),
        },
    }
}

impl View for Value {
    type V = ValueView;

    open spec fn view(&self) -> ValueView {
        value_view(*self)
    }
}

impl View for Function {
    type V = FunctionView;

    open spec fn view(&self) -> FunctionView {
        function_view(*self)
    }
}

pub broadcast proof fn lemma_values_view(s: Seq<Value>)
    ensures
        #[trigger] values_view(s).len() == s.len(),
        forall|i: int| 0 <= i < s.len() ==> #[trigger] values_view(s)[i] == value_view(s[i]),
    decreases s.len(),
{
    if s.len() > 0 {
        lemma_values_view(s.drop_last());
    }
}

pub proof fn lemma_values_view_push(s: Seq<Value>, v: Value)
    ensures
        values_view(s.push(v)) == values_view(s).push(value_view(v)),
{
    assert(s.push(v).drop_last() =~= s);
}

pub proof fn lemma_values_view_append(a: Seq<Value>, b: Seq<Value>)
    ensures
        values_view(a + b) == values_view(a) + values_view(b),
{
    lemma_values_view(a + b);
    lemma_values_view(a);
    lemma_values_view(b);
    assert(values_view(a + b) =~= values_view(a) + values_view(b));
}

pub proof fn lemma_values_view_skip(s: Seq<Value>, k: int)
    requires
        0 <= k <= s.len(),
    ensures
        values_view(s.subrange(k, s.len() as int)) == values_view(s).subrange(k, s.len() as int),
{
    lemma_values_view(s.subrange(k, s.len() as int));
    lemma_values_view(s);
    assert(values_view(s.subrange(k, s.len() as int)) =~= values_view(s).subrange(k, s.len() as int));
}

pub proof fn lemma_values_view_eq(a: Seq<Value>, b: Seq<Value>)
    requires
        a.len() == b.len(),
        forall|i: int| 0 <= i < a.len() ==> value_view(#[trigger] a[i]) == value_view(b[i]),
    ensures
        values_view(a) == values_view(b),
{
    lemma_values_view(a);
    lemma_values_view(b);
    assert(values_view(a) =~= values_view(b));
}

/// A copy of a string.
pub fn copy_string(s: &String) -> (r: String)
    ensures
        r@ == s@,
{
    s.clone()
}

/// A copy of a list of names.
pub fn copy_strings(s: &Vec<String>) -> (r: Vec<String>)
    ensures
        strings_view(r@) == strings_view(s@),
        r@.len() == s@.len(),
{
    let mut r: Vec<String> = Vec::new();
    let mut i: usize = 0;
    while i < s.len()
        invariant
            i <= s.len(),
            r@.len() == i,
            forall|j: int| 0 <= j < i ==> (#[trigger] r@[j])@ == s@[j]@,
        decreases s.len() - i,
    {
        r.push(s[i].clone());
        i = i + 1;
    }
    assert(strings_view(r@) =~= strings_view(s@));
    r
}

/// A copy of a value.
pub fn copy_value(v: &Value) -> (r: Value)
    ensures
        r@ == v@,
    decreases v,
{
    match v {
        Value::Nil => Value::Nil,
        Value::Bool(b) => Value::Bool(*b),
        Value::Number(n) => Value::Number(*n),
        Value::String(s) => Value::String(s.clone()),
        Value::Symbol(s) => Value::Symbol(s.clone()),
        Value::List(l) => {
            let c = copy_values(l);
            Value::List(c)
        },
        Value::Function(f) => Value::Function(Box::new(copy_function(f))),
    }
}

/// A copy of a sequence of values.
pub fn copy_values(s: &Vec<Value>) -> (r: Vec<Value>)
    ensures
        values_view(r@) == values_view(s@),
        r@.len() == s@.len(),
    decreases s,
{
    let mut r: Vec<Value> = Vec::new();
    let mut i: usize = 0;
    while i < s.len()
        invariant
            i <= s.len(),
            r@.len() == i,
            forall|j: int| 0 <= j < i ==> (#[trigger] r@[j])@ == s@[j]@,
        decreases s.len() - i,
    {
        assert(decreases_to!(s => s@[i as int]));
        let c = copy_value(&s[i]);
        r.push(c);
        i = i + 1;
    }
    proof {
        lemma_values_view_eq(r@, s@);
    }
    r
}

/// A copy of a callable value.
pub fn copy_function(f: &Function) -> (r: Function)
    ensures
        r@ == f@,
    decreases f,
{
    match f {
        Function::Builtin(b) => Function::Builtin(BuiltinFunction { name: b.name.clone(), arity: b.arity }),
        Function::UserDefined(u) => {
            let name = match &u.name {
                Some(n) => Some(n.clone()),
                None => None,
            };
            Function::UserDefined(Box::new(UserFunction {
                name,
                params: copy_strings(&u.params),
                body: Box::new(copy_value(&u.body)),
                closure: u.closure,
            }))
        },
        Function::Macro(m) => Function::Macro(Box::new(MacroFunction {
            name: m.name.clone(),
            params: copy_strings(&m.params),
            body: Box::new(copy_value(&m.body)),
        })),
    }
}

/// The name of a defined function as text.
pub open spec fn name_view(n: Option<String>) -> Option<Seq<char>> {
    match n {
        Some(x) => Some(x@),
        None => None,
    }
}

impl PartialEq for UserFunction {
    fn eq(&self, other: &UserFunction) -> (r: bool) {
        let same_name = match (&self.name, &other.name) {
            (Some(x), Some(y)) => *x == *y,
            (None, None) => true,
            _ => false,
        };
        same_name && strings_equal(&self.params, &other.params) && values_equal(&self.body, &other.body)
    }
}

impl vstd::std_specs::cmp::PartialEqSpecImpl for UserFunction {
    open spec fn obeys_eq_spec() -> bool {
        true
    }

    open spec fn eq_spec(&self, other: &UserFunction) -> bool {
        &&& name_view(self.name) == name_view(other.name)
        &&& strings_view(self.params@) == strings_view(other.params@)
        &&& view_equal(value_view(*self.body), value_view(*other.body))
    }
}

impl Clone for Value {
    fn clone(&self) -> (r: Value)
        ensures
            r@ == self@,
    {
        copy_value(self)
    }
}

impl Clone for Function {
    fn clone(&self) -> (r: Function)
        ensures
            r@ == self@,
    {
        copy_function(self)
    }
}


/// The name under which a value's type is reported.
pub open spec fn type_name_of(v: ValueView) -> Seq<char> {
    match v {
        ValueView::Nil => "nil"@,
        ValueView::Bool(_) => "boolean"@,
        ValueView::Number(_) => "number"@,
        ValueView::Str(_) => "string"@,
        ValueView::Symbol(_) => "symbol"@,
        ValueView::List(_) => "list"@,
        ValueView::Function(_) => "function"@,
    }
}

/// The first element of a list.
pub open spec fn spec_car(v: ValueView) -> Result<ValueView, ErrorView> {
    match v {
        ValueView::List(l) => if l.len() > 0 {
            Ok(l[0])
        } else {
            Err(ErrorView::Runtime("car: cannot get car of empty list"@))
        },
        _ => Err(ErrorView::Type("car: expected list, got "@ + type_name_of(v))),
    }
}

/// A list without its first element.
pub open spec fn spec_cdr(v: ValueView) -> Result<ValueView, ErrorView> {
    match v {
        ValueView::List(l) => if l.len() > 0 {
            Ok(ValueView::List(l.drop_first()))
        } else {
            Err(ErrorView::Runtime("cdr: cannot get cdr of empty list"@))
        },
        _ => Err(ErrorView::Type("cdr: expected list, got "@ + type_name_of(v))),
    }
}

/// `head` put in front of `tail`: a list grows by one element, nil becomes a
/// one-element list, and any other tail makes a two-element list.
pub open spec fn spec_cons(head: ValueView, tail: ValueView) -> ValueView {
    match tail {
        ValueView::List(l) => ValueView::List(seq![head] + l),
        ValueView::Nil => ValueView::List(seq![head]),
        _ => ValueView::List(seq![head, tail]),
    }
}

/// The number of elements of a list; nil counts as the empty list.
pub open spec fn spec_length(v: ValueView) -> Result<nat, ErrorView> {
    match v {
        ValueView::List(l) => Ok(l.len()),
        ValueView::Nil => Ok(0),
        _ => Err(ErrorView::Type("length: expected list, got "@ + type_name_of(v))),
    }
}

/// Nil and the empty list are the empty list.
pub open spec fn spec_is_empty_list(v: ValueView) -> bool {
    match v {
        ValueView::List(l) => l.len() == 0,
        ValueView::Nil => true,
        _ => false,
    }
}

/// The error for a value of the wrong type.
pub open spec fn expected_error(heading: Seq<char>, v: ValueView) -> ErrorView {
    ErrorView::Type(heading + type_name_of(v))
}

/// Only nil and false are false.
pub open spec fn spec_truthy(v: ValueView) -> bool {
    match v {
        ValueView::Nil => false,
        ValueView::Bool(b) => b,
        _ => true,
    }
}

/// Only nil and false count as false in a condition: every number (zero
/// included), string, symbol, list (the empty one included), function and
/// true counts as true.
pub proof fn law_truthiness(v: ValueView)
    ensures
        !spec_truthy(v) <==> (v is Nil || v == ValueView::Bool(false)),
        v matches ValueView::Number(_) ==> spec_truthy(v),
        v == ValueView::List(seq![]) ==> spec_truthy(v),
{
}

/// The name a callable value is shown with.
pub open spec fn function_name(f: FunctionView) -> Seq<char> {
    match f {
        FunctionView::Builtin { name, .. } => name,
        FunctionView::User { name, .. } => match name {
            Some(n) => n,
            None => "<anonymous>"@,
        },
        FunctionView::Macro { name, .. } => name,
    }
}

/// The number of arguments a callable value accepts.
pub open spec fn function_arity(f: FunctionView) -> Arity {
    match f {
        FunctionView::Builtin { arity, .. } => arity,
        FunctionView::User { params, .. } => Arity::Exact(params.len() as usize),
        FunctionView::Macro { params, .. } => Arity::Exact(params.len() as usize),
    }
}

impl Value {
    pub fn nil() -> (v: Value)
        ensures
            v@ == ValueView::Nil,
    {
        Value::Nil
    }

    pub fn bool(b: bool) -> (v: Value)
        ensures
            v@ == ValueView::Bool(b),
    {
        Value::Bool(b)
    }

    pub fn number(n: Number) -> (v: Value)
        ensures
            v@ == ValueView::Number(n),
    {
        Value::Number(n)
    }

    pub fn string(s: &str) -> (v: Value)
        ensures
            v@ == ValueView::Str(s@),
    {
        Value::String(owned(s))
    }

    pub fn symbol(s: &str) -> (v: Value)
        ensures
            v@ == ValueView::Symbol(s@),
    {
        Value::Symbol(owned(s))
    }

    pub fn list(values: Vec<Value>) -> (v: Value)
        ensures
            v@ == ValueView::List(values_view(values@)),
    {
        Value::List(values)
    }

    /// The name of this value's type.
    pub fn type_label(&self) -> (r: &'static str)
        ensures
            r@ == type_name_of(self@),
    {
        match self {
            Value::Nil => "nil",
            Value::Bool(_) => "boolean",
            Value::Number(_) => "number",
            Value::String(_) => "string",
            Value::Symbol(_) => "symbol",
            Value::List(_) => "list",
            Value::Function(_) => "function",
        }
    }

    /// The first element of a list.
    pub fn car(&self) -> (r: Result<&Value, RispyError>)
        ensures
            match r {
                Ok(x) => spec_car(self@) == Ok::<ValueView, ErrorView>(x@),
                Err(e) => spec_car(self@) == Err::<ValueView, ErrorView>(e@),
            },
    {
        match self {
            Value::List(list) => {
                if list.len() == 0 {
                    Err(RispyError::RuntimeError(owned("car: cannot get car of empty list")))
                } else {
                    proof {
                        lemma_values_view(list@);
                    }
                    Ok(&list[0])
                }
            },
            _ => Err(RispyError::TypeError(join("car: expected list, got ", self.type_label()))),
        }
    }

    /// A list without its first element.
    pub fn cdr(&self) -> (r: Result<Value, RispyError>)
        ensures
            match r {
                Ok(x) => spec_cdr(self@) == Ok::<ValueView, ErrorView>(x@),
                Err(e) => spec_cdr(self@) == Err::<ValueView, ErrorView>(e@),
            },
    {
        match self {
            Value::List(list) => {
                if list.len() == 0 {
                    Err(RispyError::RuntimeError(owned("cdr: cannot get cdr of empty list")))
                } else {
                    let rest = copy_from(list, 1);
                    proof {
                        lemma_values_view_skip(list@, 1);
                        lemma_values_view(list@);
                        assert(values_view(list@).drop_first() =~= values_view(list@).subrange(1, list@.len() as int));
                    }
                    Ok(Value::List(rest))
                }
            },
            _ => Err(RispyError::TypeError(join("cdr: expected list, got ", self.type_label()))),
        }
    }

    /// This value put in front of `tail`.
    pub fn cons(self, tail: Value) -> (r: Value)
        ensures
            r@ == spec_cons(self@, tail@),
    {
        let ghost head = self@;
        match tail {
            Value::List(mut list) => {
                let ghost old_list = list@;
                list.insert(0, self);
                proof {
                    lemma_values_view(old_list);
                    lemma_values_view(list@);
                    assert(values_view(list@) =~= seq![head] + values_view(old_list));
                }
                Value::List(list)
            },
            Value::Nil => {
                let mut list = Vec::new();
                list.push(self);
                proof {
                    lemma_values_view(list@);
                    assert(values_view(list@) =~= seq![head]);
                }
                Value::List(list)
            },
            other => {
                let ghost t = other@;
                let mut list = Vec::new();
                list.push(self);
                list.push(other);
                proof {
                    lemma_values_view(list@);
                    assert(values_view(list@) =~= seq![head, t]);
                }
                Value::List(list)
            },
        }
    }

    /// The number of elements of a list (nil has none).
    pub fn length(&self) -> (r: Result<usize, RispyError>)
        ensures
            match r {
                Ok(n) => spec_length(self@) == Ok::<nat, ErrorView>(n as nat),
                Err(e) => spec_length(self@) == Err::<nat, ErrorView>(e@),
            },
    {
        match self {
            Value::List(list) => {
                proof {
                    lemma_values_view(list@);
                }
                Ok(list.len())
            },
            Value::Nil => Ok(0),
            _ => Err(RispyError::TypeError(join("length: expected list, got ", self.type_label()))),
        }
    }

    /// Whether this is nil or the empty list.
    pub fn is_empty_list(&self) -> (r: bool)
        ensures
            r == spec_is_empty_list(self@),
    {
        match self {
            Value::List(list) => {
                proof {
                    lemma_values_view(list@);
                }
                list.len() == 0
            },
            Value::Nil => true,
            _ => false,
        }
    }

    /// The number this value holds.
    pub fn expect_number(&self) -> (r: Result<Number, RispyError>)
        ensures
            match self@ {
                ValueView::Number(n) => r == Ok::<Number, RispyError>(n),
                _ => r matches Err(e) && e@ == expected_error("Expected number, got "@, self@),
            },
    {
        match self {
            Value::Number(n) => Ok(*n),
            _ => Err(RispyError::TypeError(join("Expected number, got ", self.type_label()))),
        }
    }

    /// The text of a string value.
    pub fn expect_string(&self) -> (r: Result<&str, RispyError>)
        ensures
            match self@ {
                ValueView::Str(s) => r matches Ok(x) && x@ == s,
                _ => r matches Err(e) && e@ == expected_error("Expected string, got "@, self@),
            },
    {
        match self {
            Value::String(s) => Ok(s.as_str()),
            _ => Err(RispyError::TypeError(join("Expected string, got ", self.type_label()))),
        }
    }

    /// The name of a symbol.
    pub fn expect_symbol(&self) -> (r: Result<&str, RispyError>)
        ensures
            match self@ {
                ValueView::Symbol(s) => r matches Ok(x) && x@ == s,
                _ => r matches Err(e) && e@ == expected_error("Expected symbol, got "@, self@),
            },
    {
        match self {
            Value::Symbol(s) => Ok(s.as_str()),
            _ => Err(RispyError::TypeError(join("Expected symbol, got ", self.type_label()))),
        }
    }

    /// The elements of a list.
    pub fn expect_list(&self) -> (r: Result<&[Value], RispyError>)
        ensures
            match self@ {
                ValueView::List(l) => r matches Ok(x) && values_view(x@) == l,
                _ => r matches Err(e) && e@ == expected_error("Expected list, got "@, self@),
            },
    {
        match self {
            Value::List(list) => Ok(list.as_slice()),
            _ => Err(RispyError::TypeError(join("Expected list, got ", self.type_label()))),
        }
    }

    /// The callable value this value holds.
    pub fn expect_function(&self) -> (r: Result<&Function, RispyError>)
        ensures
            match self@ {
                ValueView::Function(f) => r matches Ok(x) && x@ == *f,
                _ => r matches Err(e) && e@ == expected_error("Expected function, got "@, self@),
            },
    {
        match self {
            Value::Function(f) => Ok(&**f),
            _ => Err(RispyError::TypeError(join("Expected function, got ", self.type_label()))),
        }
    }
}

/// The values of `list` from position `start` on.
pub fn copy_from(list: &Vec<Value>, start: usize) -> (r: Vec<Value>)
    requires
        start <= list@.len(),
    ensures
        values_view(r@) == values_view(list@.subrange(start as int, list@.len() as int)),
{
    let mut r: Vec<Value> = Vec::new();
    let mut i = start;
    while i < list.len()
        invariant
            start <= i <= list@.len(),
            r@.len() == i - start,
            forall|j: int| 0 <= j < r@.len() ==> (#[trigger] r@[j])@ == list@[j + start]@,
        decreases list.len() - i,
    {
        r.push(copy_value(&list[i]));
        i = i + 1;
    }
    proof {
        lemma_values_view_eq(r@, list@.subrange(start as int, list@.len() as int));
    }
    r
}

pub fn is_nil(value: &Value) -> (r: bool)
    ensures
        r == (value@ is Nil),
{
    matches!(value, Value::Nil)
}

pub fn is_bool(value: &Value) -> (r: bool)
    ensures
        r == (value@ is Bool),
{
    matches!(value, Value::Bool(_))
}

pub fn is_number(value: &Value) -> (r: bool)
    ensures
        r == (value@ is Number),
{
    matches!(value, Value::Number(_))
}

pub fn is_string(value: &Value) -> (r: bool)
    ensures
        r == (value@ is Str),
{
    matches!(value, Value::String(_))
}

pub fn is_symbol(value: &Value) -> (r: bool)
    ensures
        r == (value@ is Symbol),
{
    matches!(value, Value::Symbol(_))
}

pub fn is_list(value: &Value) -> (r: bool)
    ensures
        r == (value@ is List),
{
    matches!(value, Value::List(_))
}

pub fn is_function(value: &Value) -> (r: bool)
    ensures
        r == (value@ is Function),
{
    matches!(value, Value::Function(_))
}

/// Everything but a list is an atom.
pub fn is_atom(value: &Value) -> (r: bool)
    ensures
        r == !(value@ is List),
{
    !is_list(value)
}

/// Whether a value counts as true in a condition.
pub fn is_truthy(value: &Value) -> (r: bool)
    ensures
        r == spec_truthy(value@),
{
    match value {
        Value::Nil => false,
        Value::Bool(false) => false,
        _ => true,
    }
}

impl Function {
    /// The name the function is shown with.
    pub fn name(&self) -> (r: &str)
        ensures
            r@ == function_name(self@),
    {
        match self {
            Function::Builtin(f) => f.name.as_str(),
            Function::UserDefined(f) => match &f.name {
                Some(n) => n.as_str(),
                None => "<anonymous>",
            },
            Function::Macro(f) => f.name.as_str(),
        }
    }

    /// The number of arguments the function accepts.
    pub fn arity(&self) -> (r: Arity)
        ensures
            r == function_arity(self@),
    {
        match self {
            Function::Builtin(f) => f.arity,
            Function::UserDefined(f) => Arity::Exact(f.params.len()),
            Function::Macro(f) => Arity::Exact(f.params.len()),
        }
    }
}

/// Whether a call with `n` arguments meets the arity.
pub open spec fn arity_accepts(a: Arity, n: nat) -> bool {
    match a {
        Arity::Exact(k) => n == k,
        Arity::AtLeast(k) => n >= k,
        Arity::Range(lo, hi) => lo <= n <= hi,
        Arity::Variadic => true,
    }
}

/// How the expected number of arguments is worded in an arity error.
pub open spec fn arity_wording(a: Arity) -> Seq<char> {
    match a {
        Arity::Exact(k) => decimal(k as nat),
        Arity::AtLeast(k) => "at least "@ + decimal(k as nat),
        Arity::Range(lo, hi) => decimal(lo as nat) + " to "@ + decimal(hi as nat),
        Arity::Variadic => "any number of"@,
    }
}

/// The error for a call with `n` arguments that does not meet the arity.
pub open spec fn arity_error(a: Arity, n: nat) -> ErrorView {
    ErrorView::Arity("Expected "@ + arity_wording(a) + " arguments, got "@ + decimal(n))
}

fn arity_wording_string(expected: &Arity) -> (s: String)
    ensures
        s@ == arity_wording(*expected),
{
    match expected {
        Arity::Exact(n) => decimal_string(*n as u64),
        Arity::AtLeast(n) => {
            let d = decimal_string(*n as u64);
            join("at least ", d.as_str())
        },
        Arity::Range(lo, hi) => {
            let a = decimal_string(*lo as u64);
            let b = decimal_string(*hi as u64);
            join3(a.as_str(), " to ", b.as_str())
        },
        Arity::Variadic => owned("any number of"),
    }
}

/// Checks that a call passes as many arguments as the arity allows.
pub fn check_arity(args: &[Value], expected: &Arity) -> (r: Result<(), RispyError>)
    ensures
        r is Ok <==> arity_accepts(*expected, args@.len()),
        r matches Err(e) ==> e@ == arity_error(*expected, args@.len()),
{
    let arg_count = args.len();
    let valid = match expected {
        Arity::Exact(n) => arg_count == *n,
        Arity::AtLeast(n) => arg_count >= *n,
        Arity::Range(min, max) => arg_count >= *min && arg_count <= *max,
        Arity::Variadic => true,
    };
    if !valid {
        let wording = arity_wording_string(expected);
        let count = decimal_string(arg_count as u64);
        let head = join3("Expected ", wording.as_str(), " arguments, got ");
        Err(RispyError::ArityError(join(head.as_str(), count.as_str())))
    } else {
        Ok(())
    }
}

/// The characters a string character is written with inside a string literal.
pub open spec fn escape_char(c: char) -> Seq<char> {
    if c == '"' {
        seq!['\\', '"']
    } else if c == '\\' {
        seq!['\\', '\\']
    } else if c == '\n' {
        seq!['\\', 'n']
    } else if c == '\t' {
        seq!['\\', 't']
    } else if c == '\r' {
        seq!['\\', 'r']
    } else {
        seq![c]
    }
}

/// The body of a string literal that reads back as `s`.
pub open spec fn escape(s: Seq<char>) -> Seq<char>
    decreases s.len(),
{
    if s.len() == 0 {
        seq![]
    } else {
        escape(s.drop_last()) + escape_char(s.last())
    }
}

fn push_escaped(out: &mut Vec<char>, c: char)
    ensures
        final(out)@ == old(out)@ + escape_char(c),
{
    if c == '"' {
        out.push('\\');
        out.push('"');
    } else if c == '\\' {
        out.push('\\');
        out.push('\\');
    } else if c == '\n' {
        out.push('\\');
        out.push('n');
    } else if c == '\t' {
        out.push('\\');
        out.push('t');
    } else if c == '\r' {
        out.push('\\');
        out.push('r');
    } else {
        out.push(c);
    }
}

fn escape_into(out: &mut Vec<char>, s: &str)
    ensures
        final(out)@ == old(out)@ + escape(s@),
{
    let chars = chars_of(s);
    let mut i: usize = 0;
    while i < chars.len()
        invariant
            i <= chars@.len(),
            chars@ == s@,
            out@ == old(out)@ + escape(chars@.take(i as int)),
        decreases chars.len() - i,
    {
        proof {
            assert(chars@.take(i + 1).drop_last() =~= chars@.take(i as int));
        }
        push_escaped(out, chars[i]);
        i = i + 1;
    }
    assert(chars@.take(i as int) =~= chars@);
}

/// `s` with quotes, backslashes and the newline, tab and return characters
/// written as escape sequences.
pub fn escape_string(s: &str) -> (r: String)
    ensures
        r@ == escape(s@),
{
    let mut out: Vec<char> = Vec::new();
    escape_into(&mut out, s);
    string_from_chars(&out)
}

/// Whether a value holds no number anywhere (numbers are printed by the host).
pub open spec fn number_free(v: ValueView) -> bool
    decreases v,
{
    match v {
        ValueView::Number(_) => false,
        ValueView::List(l) => all_number_free(l),
        _ => true,
    }
}

pub open spec fn all_number_free(s: Seq<ValueView>) -> bool
    decreases s,
{
    if s.len() == 0 {
        true
    } else {
        all_number_free(s.drop_last()) && number_free(s.last())
    }
}

/// The printed form of a value. Numbers are printed by the host; here they
/// stand as nothing.
pub open spec fn render(v: ValueView) -> Seq<char>
    decreases v,
{
    match v {
        ValueView::Nil => "nil"@,
        ValueView::Bool(b) => if b { "#t"@ } else { "#f"@ },
        ValueView::Number(_) => seq![],
        ValueView::Str(s) => seq!['"'] + escape(s) + seq!['"'],
        ValueView::Symbol(s) => s,
        ValueView::List(l) => seq!['('] + render_items(l) + seq![')'],
        ValueView::Function(f) => "#<function:"@ + function_name(*f) + seq!['>'],
    }
}

/// The printed forms of the elements, separated by single spaces.
pub open spec fn render_items(s: Seq<ValueView>) -> Seq<char>
    decreases s,
{
    if s.len() == 0 {
        seq![]
    } else if s.len() == 1 {
        render(s[0])
    } else {
        render_items(s.drop_last()) + seq![' '] + render(s.last())
    }
}

/// The printed form of a value, its numbers printed by the host `h`.
pub open spec fn render_in<A: Arithmetic>(v: ValueView, h: A) -> Seq<char>
    decreases v,
{
    match v {
        ValueView::Number(n) => h.spec_render(n),
        ValueView::List(l) => seq!['('] + render_items_in(l, h) + seq![')'],
        _ => render(v),
    }
}

/// The printed forms of the elements, separated by single spaces.
pub open spec fn render_items_in<A: Arithmetic>(s: Seq<ValueView>, h: A) -> Seq<char>
    decreases s,
{
    if s.len() == 0 {
        seq![]
    } else if s.len() == 1 {
        render_in(s[0], h)
    } else {
        render_items_in(s.drop_last(), h) + seq![' '] + render_in(s.last(), h)
    }
}

/// A value that holds no number prints the same whatever the host.
pub proof fn law_number_free_renders_alike<A: Arithmetic>(v: ValueView, h: A)
    requires
        number_free(v),
    ensures
        render_in(v, h) == render(v),
    decreases v,
{
    match v {
        ValueView::List(l) => lemma_items_number_free_render(l, h),
        _ => {},
    }
}

proof fn lemma_items_number_free_render<A: Arithmetic>(s: Seq<ValueView>, h: A)
    requires
        all_number_free(s),
    ensures
        render_items_in(s, h) == render_items(s),
    decreases s,
{
    if s.len() == 1 {
        law_number_free_renders_alike(s[0], h);
    } else if s.len() > 1 {
        lemma_items_number_free_render(s.drop_last(), h);
        law_number_free_renders_alike(s.last(), h);
    }
}

fn push_str(out: &mut Vec<char>, s: &str)
    ensures
        final(out)@ == old(out)@ + s@,
{
    let chars = chars_of(s);
    let mut i: usize = 0;
    while i < chars.len()
        invariant
            i <= chars@.len(),
            chars@ == s@,
            out@ == old(out)@ + chars@.take(i as int),
        decreases chars.len() - i,
    {
        out.push(chars[i]);
        i = i + 1;
        assert(out@ =~= old(out)@ + chars@.take(i as int));
    }
    assert(chars@.take(i as int) =~= chars@);
}

fn render_into<A: Arithmetic>(out: &mut Vec<char>, v: &Value, arith: &A)
    ensures
        final(out)@ == old(out)@ + render_in(v@, *arith),
    decreases v,
{
    match v {
        Value::Nil => push_str(out, "nil"),
        Value::Bool(b) => {
            if *b {
                push_str(out, "#t")
            } else {
                push_str(out, "#f")
            }
        },
        Value::Number(n) => {
            let text = arith.render(*n);
            push_str(out, text.as_str());
        },
        Value::String(s) => {
            out.push('"');
            escape_into(out, s.as_str());
            out.push('"');
        },
        Value::Symbol(s) => push_str(out, s.as_str()),
        Value::List(list) => {
            out.push('(');
            render_items_into(out, list, arith);
            out.push(')');
        },
        Value::Function(f) => {
            push_str(out, "#<function:");
            push_str(out, f.name());
            out.push('>');
        },
    }
}

fn render_items_into<A: Arithmetic>(out: &mut Vec<char>, list: &Vec<Value>, arith: &A)
    ensures
        final(out)@ == old(out)@ + render_items_in(values_view(list@), *arith),
    decreases list,
{
    let ghost items = values_view(list@);
    proof {
        lemma_values_view(list@);
    }
    let ghost start = out@;
    let mut i: usize = 0;
    while i < list.len()
        invariant
            i <= list@.len(),
            items == values_view(list@),
            items.len() == list@.len(),
            forall|j: int| 0 <= j < list@.len() ==> items[j] == (#[trigger] list@[j])@,
            out@ == start + render_items_in(items.take(i as int), *arith),
        decreases list.len() - i,
    {
        assert(decreases_to!(list => list@[i as int]));
        assert(items.take(i + 1).drop_last() =~= items.take(i as int));
        if i > 0 {
            out.push(' ');
        }
        render_into(out, &list[i], arith);
        proof {
            let t = items.take(i + 1);
            assert(t.last() == items[i as int]);
            if i == 0 {
                assert(t[0] == items[0]);
            }
            assert(out@ =~= start + render_items_in(t, *arith));
        }
        i = i + 1;
    }
    assert(items.take(i as int) =~= items);
}

impl Value {
    /// The printed form of the value; numbers are printed by `arith`.
    pub fn display<A: Arithmetic>(&self, arith: &A) -> (s: String)
        ensures
            s@ == render_in(self@, *arith),
    {
        let mut out: Vec<char> = Vec::new();
        render_into(&mut out, self, arith);
        assert(out@ =~= Seq::<char>::empty() + out@);
        string_from_chars(&out)
    }
}

/// Equality of values: structural, with numbers compared as IEEE-754 numbers
/// and functions compared by name, arity or parameters, and body.
pub open spec fn view_equal(a: ValueView, b: ValueView) -> bool
    decreases a,
{
    match a {
        ValueView::Nil => b is Nil,
        ValueView::Bool(x) => b matches ValueView::Bool(y) && x == y,
        ValueView::Number(x) => b matches ValueView::Number(y) && spec_num_eq(x.bits, y.bits),
        ValueView::Str(x) => b matches ValueView::Str(y) && x == y,
        ValueView::Symbol(x) => b matches ValueView::Symbol(y) && x == y,
        ValueView::List(x) => b matches ValueView::List(y) && items_equal(x, y),
        ValueView::Function(f) => b matches ValueView::Function(g) && functions_equal(*f, *g),
    }
}

pub open spec fn items_equal(x: Seq<ValueView>, y: Seq<ValueView>) -> bool
    decreases x,
{
    x.len() == y.len() && (x.len() == 0 || (items_equal(x.drop_last(), y.drop_last())
        && view_equal(x.last(), y.last())))
}

pub open spec fn functions_equal(f: FunctionView, g: FunctionView) -> bool
    decreases f,
{
    match f {
        FunctionView::Builtin { name, arity } => g matches FunctionView::Builtin {
            name: n2,
            arity: a2,
        } && name == n2 && arity == a2,
        FunctionView::User { name, params, body, .. } => g matches FunctionView::User {
            name: n2,
            params: p2,
            body: b2,
            ..
        } && name == n2 && params == p2 && view_equal(body, b2),
        FunctionView::Macro { name, params, body } => g matches FunctionView::Macro {
            name: n2,
            params: p2,
            body: b2,
        } && name == n2 && params == p2 && view_equal(body, b2),
    }
}

/// A value holds no NaN, at any depth.
pub open spec fn nan_free(v: ValueView) -> bool
    decreases v,
{
    match v {
        ValueView::Number(n) => !spec_is_nan(n.bits),
        ValueView::List(l) => items_nan_free(l),
        ValueView::Function(f) => match *f {
            FunctionView::Builtin { .. } => true,
            FunctionView::User { body, .. } => nan_free(body),
            FunctionView::Macro { body, .. } => nan_free(body),
        },
        _ => true,
    }
}

pub open spec fn items_nan_free(x: Seq<ValueView>) -> bool
    decreases x,
{
    x.len() == 0 || (items_nan_free(x.drop_last()) && nan_free(x.last()))
}

/// Every value without NaN equals itself (a NaN equals nothing, itself included).
pub proof fn law_equal_reflexive(v: ValueView)
    requires
        nan_free(v),
    ensures
        view_equal(v, v),
    decreases v,
{
    match v {
        ValueView::List(l) => lemma_items_equal_reflexive(l),
        ValueView::Function(f) => match *f {
            FunctionView::User { body, .. } => law_equal_reflexive(body),
            FunctionView::Macro { body, .. } => law_equal_reflexive(body),
            _ => {},
        },
        _ => {},
    }
}

proof fn lemma_items_equal_reflexive(x: Seq<ValueView>)
    requires
        items_nan_free(x),
    ensures
        items_equal(x, x),
    decreases x,
{
    if x.len() > 0 {
        lemma_items_equal_reflexive(x.drop_last());
        law_equal_reflexive(x.last());
    }
}

/// Equality of values is symmetric.
pub proof fn law_equal_symmetric(a: ValueView, b: ValueView)
    ensures
        view_equal(a, b) == view_equal(b, a),
    decreases a,
{
    match (a, b) {
        (ValueView::List(x), ValueView::List(y)) => lemma_items_equal_symmetric(x, y),
        (ValueView::Function(f), ValueView::Function(g)) => match (*f, *g) {
            (FunctionView::User { body: p, .. }, FunctionView::User { body: q, .. }) => law_equal_symmetric(p, q),
            (FunctionView::Macro { body: p, .. }, FunctionView::Macro { body: q, .. }) => law_equal_symmetric(p, q),
            _ => {},
        },
        _ => {},
    }
}

proof fn lemma_items_equal_symmetric(x: Seq<ValueView>, y: Seq<ValueView>)
    ensures
        items_equal(x, y) == items_equal(y, x),
    decreases x,
{
    if x.len() > 0 && x.len() == y.len() {
        lemma_items_equal_symmetric(x.drop_last(), y.drop_last());
        law_equal_symmetric(x.last(), y.last());
    }
}

/// `car` of a value put in front of a list (or of nil) is that value, and
/// `cdr` is the list it was put in front of (the empty list for nil).
pub proof fn law_car_cdr_of_cons(head: ValueView, tail: ValueView)
    requires
        tail is List || tail is Nil,
    ensures
        spec_car(spec_cons(head, tail)) == Ok::<ValueView, ErrorView>(head),
        spec_cdr(spec_cons(head, tail)) == Ok::<ValueView, ErrorView>(match tail {
            ValueView::List(l) => ValueView::List(l),
            _ => ValueView::List(seq![]),
        }),
{
    match tail {
        ValueView::List(l) => {
            assert((seq![head] + l).drop_first() =~= l);
        },
        _ => {
            assert(seq![head].drop_first() =~= Seq::<ValueView>::empty());
        },
    }
}

fn strings_equal(a: &Vec<String>, b: &Vec<String>) -> (r: bool)
    ensures
        r == (strings_view(a@) == strings_view(b@)),
{
    if a.len() != b.len() {
        assert(strings_view(a@).len() != strings_view(b@).len());
        return false;
    }
    let mut i: usize = 0;
    while i < a.len()
        invariant
            i <= a@.len(),
            a@.len() == b@.len(),
            forall|j: int| 0 <= j < i ==> (#[trigger] a@[j])@ == b@[j]@,
        decreases a.len() - i,
    {
        if a[i] != b[i] {
            assert(strings_view(a@)[i as int] != strings_view(b@)[i as int]);
            return false;
        }
        i = i + 1;
    }
    assert(strings_view(a@) =~= strings_view(b@));
    true
}

/// Whether two values are the same value: equal structure, numbers with the
/// same bits, functions with the same parts.
pub fn values_identical(a: &Value, b: &Value) -> (r: bool)
    ensures
        r == (a@ == b@),
    decreases a,
{
    match a {
        Value::Nil => match b {
            Value::Nil => true,
            _ => false,
        },
        Value::Bool(x) => match b {
            Value::Bool(y) => *x == *y,
            _ => false,
        },
        Value::Number(x) => match b {
            Value::Number(y) => x.bits == y.bits,
            _ => false,
        },
        Value::String(x) => match b {
            Value::String(y) => *x == *y,
            _ => false,
        },
        Value::Symbol(x) => match b {
            Value::Symbol(y) => *x == *y,
            _ => false,
        },
        Value::List(x) => match b {
            Value::List(y) => lists_identical(x, y),
            _ => false,
        },
        Value::Function(f) => match b {
            Value::Function(g) => functions_identical(f, g),
            _ => false,
        },
    }
}

/// Whether two sequences of values are the same, item by item.
fn lists_identical(x: &Vec<Value>, y: &Vec<Value>) -> (r: bool)
    ensures
        r == (values_view(x@) == values_view(y@)),
    decreases x,
{
    proof {
        lemma_values_view(x@);
        lemma_values_view(y@);
    }
    if x.len() != y.len() {
        assert(values_view(x@).len() != values_view(y@).len());
        return false;
    }
    let mut i: usize = 0;
    while i < x.len()
        invariant
            i <= x@.len(),
            x@.len() == y@.len(),
            values_view(x@).len() == x@.len(),
            values_view(y@).len() == y@.len(),
            forall|j: int| 0 <= j < x@.len() ==> values_view(x@)[j] == (#[trigger] x@[j])@,
            forall|j: int| 0 <= j < y@.len() ==> values_view(y@)[j] == (#[trigger] y@[j])@,
            forall|j: int| 0 <= j < i ==> (#[trigger] x@[j])@ == y@[j]@,
        decreases x.len() - i,
    {
        assert(decreases_to!(x => x@[i as int]));
        if !values_identical(&x[i], &y[i]) {
            assert(values_view(x@)[i as int] != values_view(y@)[i as int]);
            return false;
        }
        i = i + 1;
    }
    assert(values_view(x@) =~= values_view(y@));
    true
}

/// Whether two callable values have the same parts.
fn functions_identical(f: &Function, g: &Function) -> (r: bool)
    ensures
        r == (f@ == g@),
    decreases f,
{
    match f {
        Function::Builtin(p) => match g {
            Function::Builtin(q) => p.name == q.name && p.arity == q.arity,
            _ => false,
        },
        Function::UserDefined(p) => match g {
            Function::UserDefined(q) => {
                let names = match (&p.name, &q.name) {
                    (Some(m), Some(n)) => *m == *n,
                    (None, None) => true,
                    _ => false,
                };
                names && strings_equal(&p.params, &q.params) && p.closure == q.closure && values_identical(&p.body, &q.body)
            },
            _ => false,
        },
        Function::Macro(p) => match g {
            Function::Macro(q) => p.name == q.name && strings_equal(&p.params, &q.params) && values_identical(&p.body, &q.body),
            _ => false,
        },
    }
}

/// Whether two values are equal.
pub fn values_equal(a: &Value, b: &Value) -> (r: bool)
    ensures
        r == view_equal(a@, b@),
    decreases a,
{
    match (a, b) {
        (Value::Nil, Value::Nil) => true,
        (Value::Bool(x), Value::Bool(y)) => *x == *y,
        (Value::Number(x), Value::Number(y)) => x.num_eq(y),
        (Value::String(x), Value::String(y)) => *x == *y,
        (Value::Symbol(x), Value::Symbol(y)) => *x == *y,
        (Value::List(x), Value::List(y)) => lists_equal(x, y),
        (Value::Function(f), Value::Function(g)) => callables_equal(f, g),
        _ => false,
    }
}

fn lists_equal(x: &Vec<Value>, y: &Vec<Value>) -> (r: bool)
    ensures
        r == items_equal(values_view(x@), values_view(y@)),
    decreases x,
{
    proof {
        lemma_values_view(x@);
        lemma_values_view(y@);
    }
    let ghost xs = values_view(x@);
    let ghost ys = values_view(y@);
    if x.len() != y.len() {
        return false;
    }
    let mut i: usize = 0;
    while i < x.len()
        invariant
            i <= x@.len(),
            x@.len() == y@.len(),
            xs == values_view(x@),
            ys == values_view(y@),
            xs.len() == x@.len(),
            ys.len() == y@.len(),
            forall|j: int| 0 <= j < x@.len() ==> xs[j] == (#[trigger] x@[j])@,
            forall|j: int| 0 <= j < y@.len() ==> ys[j] == (#[trigger] y@[j])@,
            items_equal(xs.take(i as int), ys.take(i as int)),
        decreases x.len() - i,
    {
        assert(decreases_to!(x => x@[i as int]));
        assert(xs.take(i + 1).drop_last() =~= xs.take(i as int));
        assert(ys.take(i + 1).drop_last() =~= ys.take(i as int));
        if !values_equal(&x[i], &y[i]) {
            proof {
                lemma_items_equal_prefix(xs, ys, i as int);
            }
            return false;
        }
        i = i + 1;
    }
    assert(xs.take(i as int) =~= xs);
    assert(ys.take(i as int) =~= ys);
    true
}

proof fn lemma_items_equal_prefix(xs: Seq<ValueView>, ys: Seq<ValueView>, i: int)
    requires
        0 <= i < xs.len(),
        xs.len() == ys.len(),
        !view_equal(xs[i], ys[i]),
    ensures
        !items_equal(xs, ys),
    decreases xs.len(),
{
    if i < xs.len() - 1 {
        lemma_items_equal_prefix(xs.drop_last(), ys.drop_last(), i);
    }
}

fn callables_equal(f: &Function, g: &Function) -> (r: bool)
    ensures
        r == functions_equal(f@, g@),
    decreases f,
{
    match (f, g) {
        (Function::Builtin(a), Function::Builtin(b)) => a.name == b.name && a.arity == b.arity,
        (Function::UserDefined(a), Function::UserDefined(b)) => {
            let same_name = match (&a.name, &b.name) {
                (Some(x), Some(y)) => *x == *y,
                (None, None) => true,
                _ => false,
            };
            same_name && strings_equal(&a.params, &b.params) && values_equal(&a.body, &b.body)
        },
        (Function::Macro(a), Function::Macro(b)) => {
            a.name == b.name && strings_equal(&a.params, &b.params) && values_equal(&a.body, &b.body)
        },
        _ => false,
    }
}

/// An evaluation result as a mathematical value.
pub open spec fn result_view(r: Result<Value, RispyError>) -> Result<ValueView, ErrorView> {
    match r {
        Ok(v) => Ok(v@),
        Err(e) => Err(e@),
    }
}
} // verus!
