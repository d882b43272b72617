use vstd::prelude::*;
use crate::error::{ErrorView, RispyError};
use crate::text::join;
use crate::value::{copy_strings, copy_value, strings_view, FunctionView, MacroFunction, Value, ValueView};

verus! {

/// Values that can be copied, the copy having the same view as the value copied.
pub trait Duplicate: View + Sized {
    fn duplicate(&self) -> (r: Self)
        ensures
            r@ == self@,
    ;
}


impl View for MacroFunction {
    type V = FunctionView;

    open spec fn view(&self) -> FunctionView {
        FunctionView::Macro { name: self.name@, params: strings_view(self.params@), body: (*self.body)@ }
    }
}

impl Duplicate for MacroFunction {
    fn duplicate(&self) -> (r: MacroFunction) {
        MacroFunction {
            name: self.name.clone(),
            params: copy_strings(&self.params),
            body: Box::new(copy_value(&self.body)),
        }
    }
}

/// The bindings of one scope, as a map from names to values; a later entry
/// for a name overrides an earlier one.
pub open spec fn frame_map<T: View>(f: Seq<(String, T)>) -> Map<Seq<char>, T::V>
    decreases f.len(),
{
    if f.len() == 0 {
        Map::empty()
    } else {
        frame_map(f.drop_last()).insert(f.last().0@, f.last().1@)
    }
}

pub open spec fn keys_distinct<T>(f: Seq<(String, T)>) -> bool {
    forall|i: int, j: int| 0 <= i < j < f.len() ==> f[i].0@ != f[j].0@
}

/// The value a name has in a chain of scopes: the innermost (last) scope that
/// binds it decides.
pub open spec fn lookup<V>(s: Seq<Map<Seq<char>, V>>, k: Seq<char>) -> Option<V>
    decreases s.len(),
{
    if s.len() == 0 {
        None
    } else if s.last().contains_key(k) {
        Some(s.last()[k])
    } else {
        lookup(s.drop_last(), k)
    }
}



/// The chain after binding `k` to `v` in the innermost scope.
pub open spec fn bind<V>(s: Seq<Map<Seq<char>, V>>, k: Seq<char>, v: V) -> Seq<Map<Seq<char>, V>> {
    s.update(s.len() - 1, s.last().insert(k, v))
}

/// Binding a name in the innermost scope of a chain gives it the bound value,
/// and leaves the value of every other name as it was.
pub proof fn law_chain_lookup_after_bind<V>(s: Seq<Map<Seq<char>, V>>, k: Seq<char>, v: V, other: Seq<char>)
    requires
        s.len() > 0,
    ensures
        lookup(bind(s, k, v), k) == Some(v),
        other != k ==> lookup(bind(s, k, v), other) == lookup(s, other),
        bind(s, k, v).len() == s.len(),
{
    assert(bind(s, k, v).drop_last() =~= s.drop_last());
}


/// A new innermost scope shadows the outer ones: a name it binds has the value
/// it binds there, and every other name keeps the value it had outside.
pub proof fn law_inner_scope_shadows<V>(s: Seq<Map<Seq<char>, V>>, m: Map<Seq<char>, V>, k: Seq<char>)
    ensures
        lookup(s.push(m), k) == if m.contains_key(k) {
            Some(m[k])
        } else {
            lookup(s, k)
        },
        s.push(m).drop_last() == s,
{
    assert(s.push(m).drop_last() =~= s);
}

proof fn lemma_frame_map_entries<T: View>(f: Seq<(String, T)>)
    requires
        keys_distinct(f),
    ensures
        forall|i: int| 0 <= i < f.len() ==> #[trigger] frame_map(f).contains_key(f[i].0@)
            && frame_map(f)[f[i].0@] == f[i].1@,
        forall|k: Seq<char>| frame_map(f).contains_key(k) ==> exists|i: int| 0 <= i < f.len() && #[trigger] f[i].0@ == k,
    decreases f.len(),
{
    if f.len() > 0 {
        let g = f.drop_last();
        let n = f.len() - 1;
        assert(keys_distinct(g));
        lemma_frame_map_entries(g);
        assert forall|i: int| 0 <= i < f.len() implies #[trigger] frame_map(f).contains_key(f[i].0@)
            && frame_map(f)[f[i].0@] == f[i].1@ by {
            if i < n {
                assert(g[i] == f[i]);
                assert(f[i].0@ != f[n].0@);
                assert(frame_map(g).contains_key(g[i].0@));
            } else {
                assert(f[i] == f.last());
            }
        }
        assert forall|k: Seq<char>| frame_map(f).contains_key(k) implies exists|i: int| 0 <= i < f.len() && #[trigger] f[i].0@ == k by {
            if k == f.last().0@ {
                assert(f[n].0@ == k);
            } else {
                assert(frame_map(g).contains_key(k));
                let i = choose|i: int| 0 <= i < g.len() && #[trigger] g[i].0@ == k;
                assert(g[i] == f[i]);
                assert(f[i].0@ == k);
            }
        }
    }
}

proof fn lemma_frame_map_absent<T: View>(f: Seq<(String, T)>, k: Seq<char>)
    requires
        forall|i: int| 0 <= i < f.len() ==> f[i].0@ != k,
    ensures
        !frame_map(f).contains_key(k),
    decreases f.len(),
{
    if f.len() > 0 {
        let g = f.drop_last();
        assert forall|i: int| 0 <= i < g.len() implies g[i].0@ != k by {
            assert(g[i] == f[i]);
        }
        lemma_frame_map_absent(g, k);
        assert(f[f.len() - 1] == f.last());
    }
}

proof fn lemma_frame_map_update<T: View>(f: Seq<(String, T)>, i: int, e: (String, T))
    requires
        keys_distinct(f),
        0 <= i < f.len(),
        e.0@ == f[i].0@,
    ensures
        frame_map(f.update(i, e)) == frame_map(f).insert(e.0@, e.1@),
        keys_distinct(f.update(i, e)),
    decreases f.len(),
{
    let g = f.update(i, e);
    if i == f.len() - 1 {
        assert(g.drop_last() =~= f.drop_last());
        assert(frame_map(g) =~= frame_map(f).insert(e.0@, e.1@));
    } else {
        assert(g.drop_last() =~= f.drop_last().update(i, e));
        lemma_frame_map_update(f.drop_last(), i, e);
        assert(f[i].0@ != f.last().0@);
        assert(frame_map(g) =~= frame_map(f).insert(e.0@, e.1@));
    }
}

/// A chain of scopes binding names to values of type `T`; the first scope is
/// the outermost.
pub struct Scopes<T> {
    frames: Vec<Vec<(String, T)>>,
}

impl<T: Duplicate> Scopes<T> {
    /// Every chain has at least one scope, and no scope binds a name twice.
    pub closed spec fn wf(&self) -> bool {
        &&& self.frames@.len() > 0
        &&& forall|i: int| 0 <= i < self.frames@.len() ==> keys_distinct(#[trigger] self.frames@[i]@)
    }

    /// The scopes, outermost first.
    pub closed spec fn view(&self) -> Seq<Map<Seq<char>, T::V>> {
        self.frames@.map_values(|f: Vec<(String, T)>| frame_map(f@))
    }

    /// A chain with one empty scope.
    pub fn new() -> (r: Self)
        ensures
            r.wf(),
            r.view() == seq![Map::<Seq<char>, T::V>::empty()],
    {
        let mut frames: Vec<Vec<(String, T)>> = Vec::new();
        frames.push(Vec::new());
        let r = Scopes { frames };
        assert(r.view() =~= seq![Map::<Seq<char>, T::V>::empty()]);
        r
    }

    /// Opens a new innermost scope.
    pub fn push_scope(&mut self)
        requires
            old(self).wf(),
        ensures
            final(self).wf(),
            final(self).view() == old(self).view().push(Map::empty()),
    {
        self.frames.push(Vec::new());
        assert(self.view() =~= old(self).view().push(Map::empty()));
    }

    fn find(frame: &Vec<(String, T)>, name: &String) -> (r: Option<usize>)
        ensures
            r matches Some(i) ==> i < frame@.len() && frame@[i as int].0@ == name@,
            r is None ==> forall|i: int| 0 <= i < frame@.len() ==> frame@[i].0@ != name@,
    {
        let mut i: usize = 0;
        while i < frame.len()
            invariant
                i <= frame@.len(),
                forall|j: int| 0 <= j < i ==> frame@[j].0@ != name@,
            decreases frame.len() - i,
        {
            if frame[i].0 == *name {
                return Some(i);
            }
            i = i + 1;
        }
        None
    }

    /// Binds `name` to `value` in the innermost scope.
    pub fn define(&mut self, name: String, value: T)
        requires
            old(self).wf(),
        ensures
            final(self).wf(),
            final(self).view() == bind(old(self).view(), name@, value@),
    {
        let top = self.frames.len() - 1;
        let ghost key = name@;
        let ghost val = value@;
        let mut frame: Vec<(String, T)> = Vec::new();
        self.frames.set_and_swap(top, &mut frame);
        let ghost old_frame = frame@;
        proof {
            assert(keys_distinct(old_frame));
        }
        match Self::find(&frame, &name) {
            Some(i) => {
                proof {
                    lemma_frame_map_update(old_frame, i as int, (name, value));
                }
                frame.set(i, (name, value));
            },
            None => {
                frame.push((name, value));
                proof {
                    assert(frame@.drop_last() =~= old_frame);
                    assert(keys_distinct(frame@));
                }
            },
        }
        assert(frame_map(frame@) == frame_map(old_frame).insert(key, val));
        self.frames.set_and_swap(top, &mut frame);
        assert(self.view() =~= bind(old(self).view(), key, val));
    }

    /// The value of `name` in the innermost scope that binds it.
    pub fn get(&self, name: &str) -> (r: Option<T>)
        requires
            self.wf(),
        ensures
            match r {
                Some(v) => lookup(self.view(), name@) == Some(v@),
                None => lookup(self.view(), name@) is None,
            },
    {
        let key = String::from_str(name);
        let mut k = self.frames.len();
        assert(self.view().take(k as int) =~= self.view());
        while k > 0
            invariant
                k <= self.frames@.len(),
                key@ == name@,
                self.view().len() == self.frames@.len(),
                forall|i: int| 0 <= i < self.frames@.len() ==> keys_distinct(#[trigger] self.frames@[i]@),
                lookup(self.view(), name@) == lookup(self.view().take(k as int), name@),
            decreases k,
        {
            let ghost s = self.view().take(k as int);
            let ghost f = self.frames@[k - 1]@;
            assert(s.drop_last() =~= self.view().take(k - 1));
            assert(s.last() == self.view()[k - 1]);
            assert(self.view()[k - 1] == frame_map(f));
            assert(keys_distinct(f));
            proof {
                lemma_frame_map_entries(f);
            }
            match Self::find(&self.frames[k - 1], &key) {
                Some(i) => {
                    assert(s.last().contains_key(name@));
                    return Some(self.frames[k - 1][i].1.duplicate());
                },
                None => {
                    proof {
                        lemma_frame_map_absent(f, name@);
                    }
                },
            }
            k = k - 1;
        }
        assert(self.view().take(0) =~= Seq::<Map<Seq<char>, T::V>>::empty());
        None
    }
}




/// The scopes of a program as a mathematical value: the bindings of each
/// scope, the parent of each scope (a scope that is its own parent is a
/// root), and the scope in which evaluation currently stands.
pub struct EnvView {
    pub vars: Seq<Map<Seq<char>, ValueView>>,
    pub parents: Seq<nat>,
    pub current: nat,
}

/// Every scope's parent comes before it, and the current scope exists.
pub open spec fn env_ok(e: EnvView) -> bool {
    &&& e.current < e.vars.len()
    &&& e.parents.len() == e.vars.len()
    &&& forall|i: int| 0 <= i < e.parents.len() ==> #[trigger] e.parents[i] <= i
}

/// The value of `k` seen from scope `i`: the nearest scope on the way to the
/// root that binds it decides.
pub open spec fn lookup_at(vars: Seq<Map<Seq<char>, ValueView>>, parents: Seq<nat>, i: int, k: Seq<char>) -> Option<ValueView>
    decreases i,
{
    if i < 0 || i >= vars.len() || i >= parents.len() {
        None
    } else if vars[i].contains_key(k) {
        Some(vars[i][k])
    } else if parents[i] < i {
        lookup_at(vars, parents, parents[i] as int, k)
    } else {
        None
    }
}

/// The bindings after giving `k` the value `v` in the nearest scope from `i`
/// that binds it, or `None` where none does.
pub open spec fn assign_at(vars: Seq<Map<Seq<char>, ValueView>>, parents: Seq<nat>, i: int, k: Seq<char>, v: ValueView) -> Option<Seq<Map<Seq<char>, ValueView>>>
    decreases i,
{
    if i < 0 || i >= vars.len() || i >= parents.len() {
        None
    } else if vars[i].contains_key(k) {
        Some(vars.update(i, vars[i].insert(k, v)))
    } else if parents[i] < i {
        assign_at(vars, parents, parents[i] as int, k, v)
    } else {
        None
    }
}

/// The value of `k` seen from the current scope.
pub open spec fn env_lookup(e: EnvView, k: Seq<char>) -> Option<ValueView> {
    lookup_at(e.vars, e.parents, e.current as int, k)
}

/// `k` bound to `v` in the current scope.
pub open spec fn env_bind(e: EnvView, k: Seq<char>, v: ValueView) -> EnvView {
    EnvView { vars: e.vars.update(e.current as int, e.vars[e.current as int].insert(k, v)), ..e }
}

/// `k` given the value `v` in the nearest scope that binds it, seen from the
/// current scope.
pub open spec fn env_assign(e: EnvView, k: Seq<char>, v: ValueView) -> Option<EnvView> {
    match assign_at(e.vars, e.parents, e.current as int, k, v) {
        Some(vars) => Some(EnvView { vars: vars, ..e }),
        None => None,
    }
}

/// A new, empty scope whose parent is `p` (a root where `p` is no scope),
/// made current.
pub open spec fn env_open(e: EnvView, p: nat) -> EnvView {
    EnvView {
        vars: e.vars.push(Map::empty()),
        parents: e.parents.push(if p < e.vars.len() { p } else { e.vars.len() }),
        current: e.vars.len(),
    }
}

/// The same scopes with scope `c` current.
pub open spec fn env_at(e: EnvView, c: nat) -> EnvView {
    EnvView { current: c, ..e }
}

/// Changing scope `j` leaves what is seen from scopes before it unchanged.
pub proof fn lemma_lookup_below(vars: Seq<Map<Seq<char>, ValueView>>, parents: Seq<nat>, i: int, j: int, m: Map<Seq<char>, ValueView>, k: Seq<char>)
    requires
        0 <= i < j < vars.len(),
        parents.len() == vars.len(),
    ensures
        lookup_at(vars.update(j, m), parents, i, k) == lookup_at(vars, parents, i, k),
    decreases i,
{
    if !vars[i].contains_key(k) && parents[i] < i {
        lemma_lookup_below(vars, parents, parents[i] as int, j, m, k);
    }
}

/// Assigning keeps the number of scopes and changes no scope after the start.
pub proof fn lemma_assign_at_shape(vars: Seq<Map<Seq<char>, ValueView>>, parents: Seq<nat>, i: int, k: Seq<char>, v: ValueView)
    ensures
        assign_at(vars, parents, i, k, v) matches Some(w) ==> w.len() == vars.len()
            && forall|m: int| i < m < vars.len() ==> #[trigger] w[m] == vars[m],
    decreases i,
{
    if 0 <= i < vars.len() && i < parents.len() && !vars[i].contains_key(k) && parents[i] < i {
        lemma_assign_at_shape(vars, parents, parents[i] as int, k, v);
    }
}

/// Binding a name in the current scope gives it the bound value there, and
/// leaves the value of every other name as it was.
pub proof fn law_lookup_after_bind(e: EnvView, k: Seq<char>, v: ValueView, other: Seq<char>)
    requires
        env_ok(e),
    ensures
        env_lookup(env_bind(e, k, v), k) == Some(v),
        other != k ==> env_lookup(env_bind(e, k, v), other) == env_lookup(e, other),
        env_ok(env_bind(e, k, v)),
{
    let c = e.current as int;
    let m = e.vars[c].insert(k, v);
    if other != k && !e.vars[c].contains_key(other) && e.parents[c] < c {
        lemma_lookup_below(e.vars, e.parents, e.parents[c] as int, c, m, other);
    }
}

/// Assigning fails exactly where no scope on the way from the current one to
/// its root binds the name; where it succeeds the name has the new value.
pub proof fn law_lookup_after_assign(e: EnvView, k: Seq<char>, v: ValueView)
    requires
        env_ok(e),
    ensures
        env_assign(e, k, v) is None <==> env_lookup(e, k) is None,
        env_assign(e, k, v) matches Some(e2) ==> env_lookup(e2, k) == Some(v) && env_ok(e2),
{
    lemma_assign_lookup(e.vars, e.parents, e.current as int, k, v);
}

proof fn lemma_assign_lookup(vars: Seq<Map<Seq<char>, ValueView>>, parents: Seq<nat>, i: int, k: Seq<char>, v: ValueView)
    requires
        parents.len() == vars.len(),
    ensures
        assign_at(vars, parents, i, k, v) is None <==> lookup_at(vars, parents, i, k) is None,
        assign_at(vars, parents, i, k, v) matches Some(w) ==> lookup_at(w, parents, i, k) == Some(v) && w.len() == vars.len(),
    decreases i,
{
    if 0 <= i < vars.len() && !vars[i].contains_key(k) && parents[i] < i {
        let p = parents[i] as int;
        lemma_assign_lookup(vars, parents, p, k, v);
        lemma_assign_at_shape(vars, parents, p, k, v);
        match assign_at(vars, parents, p, k, v) {
            Some(w) => {
                assert(w[i] == vars[i]);
            },
            None => {},
        }
    }
}

/// A new scope shadows its parent: a name it binds has the value it binds
/// there, and every other name has the value it has seen from the parent.
pub proof fn law_new_scope_shadows(e: EnvView, p: nat, m: Map<Seq<char>, ValueView>, k: Seq<char>)
    requires
        env_ok(e),
        p < e.vars.len(),
    ensures
        ({
            let o = env_open(e, p);
            let o2 = EnvView { vars: o.vars.update(o.current as int, m), ..o };
            &&& env_ok(o2)
            &&& env_lookup(o2, k) == if m.contains_key(k) { Some(m[k]) } else { lookup_at(e.vars, e.parents, p as int, k) }
        }),
{
    let o = env_open(e, p);
    let vars2 = o.vars.update(o.current as int, m);
    if !m.contains_key(k) {
        lemma_lookup_below(o.vars, o.parents, p as int, o.current as int, m, k);
        lemma_lookup_push(e.vars, e.parents, p as int, k, p);
    }
}

proof fn lemma_lookup_push(vars: Seq<Map<Seq<char>, ValueView>>, parents: Seq<nat>, i: int, k: Seq<char>, q: nat)
    requires
        0 <= i < vars.len(),
        parents.len() == vars.len(),
    ensures
        lookup_at(vars.push(Map::empty()), parents.push(q), i, k) == lookup_at(vars, parents, i, k),
    decreases i,
{
    if !vars[i].contains_key(k) && parents[i] < i {
        lemma_lookup_push(vars, parents, parents[i] as int, k, q);
    }
}

/// The variables of a program: a tree of scopes. Each scope has the scope it
/// was opened in as parent; a function's scope has the scope the function was
/// defined in as parent. Scopes stay as long as the environment.
pub struct Environment {
    frames: Vec<Vec<(String, Value)>>,
    parents: Vec<usize>,
    current: usize,
}

impl View for Environment {
    type V = EnvView;

    closed spec fn view(&self) -> EnvView {
        EnvView {
            vars: self.frames@.map_values(|f: Vec<(String, Value)>| frame_map(f@)),
            parents: self.parents@.map_values(|p: usize| p as nat),
            current: self.current as nat,
        }
    }
}

fn find_key(frame: &Vec<(String, Value)>, name: &String) -> (r: Option<usize>)
    ensures
        r matches Some(i) ==> i < frame@.len() && frame@[i as int].0@ == name@,
        r is None ==> forall|i: int| 0 <= i < frame@.len() ==> frame@[i].0@ != name@,
{
    let mut i: usize = 0;
    while i < frame.len()
        invariant
            i <= frame@.len(),
            forall|j: int| 0 <= j < i ==> frame@[j].0@ != name@,
        decreases frame.len() - i,
    {
        if frame[i].0 == *name {
            return Some(i);
        }
        i = i + 1;
    }
    None
}

impl Environment {
    /// Every environment made by these functions is well formed.
    pub closed spec fn wf(&self) -> bool {
        &&& self.frames@.len() == self.parents@.len()
        &&& self.current < self.frames@.len()
        &&& forall|i: int| 0 <= i < self.parents@.len() ==> #[trigger] self.parents@[i] <= i
        &&& forall|i: int| 0 <= i < self.frames@.len() ==> keys_distinct(#[trigger] self.frames@[i]@)
    }

    /// The view of a well-formed environment is a well-formed scope tree.
    pub proof fn lemma_ok(&self)
        requires
            self.wf(),
        ensures
            env_ok(self@),
    {
    }

    /// An environment with one empty scope.
    pub fn new() -> (e: Environment)
        ensures
            e.wf(),
            e@ == (EnvView { vars: seq![Map::<Seq<char>, ValueView>::empty()], parents: seq![0nat], current: 0 }),
    {
        let mut frames: Vec<Vec<(String, Value)>> = Vec::new();
        frames.push(Vec::new());
        let mut parents: Vec<usize> = Vec::new();
        parents.push(0);
        let e = Environment { frames, parents, current: 0 };
        assert(e@.vars =~= seq![Map::<Seq<char>, ValueView>::empty()]);
        assert(e@.parents =~= seq![0nat]);
        e
    }

    /// `parent` with a new, empty scope opened in its current scope.
    pub fn with_parent(parent: Environment) -> (e: Environment)
        requires
            parent.wf(),
        ensures
            e.wf(),
            e@ == env_open(parent@, parent@.current),
    {
        let mut e = parent;
        let c = e.current;
        e.open_scope(c);
        e
    }

    /// The scope in which evaluation currently stands.
    pub fn current_scope(&self) -> (c: usize)
        ensures
            c == self@.current,
    {
        self.current
    }

    /// Opens a new, empty scope whose parent is `parent` (a root where
    /// `parent` is no scope) and makes it current; returns the scope that was
    /// current before.
    pub fn open_scope(&mut self, parent: usize) -> (previous: usize)
        requires
            old(self).wf(),
        ensures
            final(self).wf(),
            previous == old(self)@.current,
            final(self)@ == env_open(old(self)@, parent as nat),
    {
        let previous = self.current;
        let n = self.frames.len();
        let p = if parent < n { parent } else { n };
        self.frames.push(Vec::new());
        self.parents.push(p);
        self.current = n;
        assert(self@.vars =~= old(self)@.vars.push(Map::empty()));
        assert(self@.parents =~= old(self)@.parents.push(if (parent as nat) < old(self)@.vars.len() { parent as nat } else { old(self)@.vars.len() }));
        assert forall|i: int| 0 <= i < self.frames@.len() implies keys_distinct(#[trigger] self.frames@[i]@) by {
            if i < n {
                assert(self.frames@[i] == old(self).frames@[i]);
            }
        }
        previous
    }

    /// Makes scope `scope` current again.
    pub fn restore_scope(&mut self, scope: usize)
        requires
            old(self).wf(),
            scope < old(self)@.vars.len(),
        ensures
            final(self).wf(),
            final(self)@ == env_at(old(self)@, scope as nat),
    {
        self.current = scope;
    }

    /// Binds `name` to `value` in the current scope.
    pub fn define(&mut self, name: String, value: Value)
        requires
            old(self).wf(),
        ensures
            final(self).wf(),
            final(self)@ == env_bind(old(self)@, name@, value@),
    {
        let top = self.current;
        let ghost key = name@;
        let ghost val = value@;
        let ghost frames0 = self.frames@;
        let mut frame: Vec<(String, Value)> = Vec::new();
        self.frames.set_and_swap(top, &mut frame);
        let ghost old_frame = frame@;
        assert(old_frame == frames0[top as int]@);
        match find_key(&frame, &name) {
            Some(i) => {
                proof {
                    lemma_frame_map_update(old_frame, i as int, (name, value));
                }
                frame.set(i, (name, value));
            },
            None => {
                frame.push((name, value));
                proof {
                    assert(frame@.drop_last() =~= old_frame);
                    assert(keys_distinct(frame@));
                }
            },
        }
        assert(frame_map(frame@) == frame_map(old_frame).insert(key, val));
        let ghost new_frame = frame@;
        self.frames.set_and_swap(top, &mut frame);
        assert(self.frames@[top as int]@ == new_frame);
        assert forall|j: int| 0 <= j < self.frames@.len() implies keys_distinct(#[trigger] self.frames@[j]@) by {
            if j != top {
                assert(self.frames@[j] == frames0[j]);
            }
        }
        assert(self@.vars =~= old(self)@.vars.update(top as int, old(self)@.vars[top as int].insert(key, val)));
    }

    /// The value of `name` seen from scope `scope`; `None` where no scope on
    /// the way to the root binds it, or `scope` is no scope.
    pub fn get_in(&self, scope: usize, name: &str) -> (r: Option<Value>)
        requires
            self.wf(),
        ensures
            match r {
                Some(v) => lookup_at(self@.vars, self@.parents, scope as int, name@) == Some(v@),
                None => lookup_at(self@.vars, self@.parents, scope as int, name@) is None,
            },
    {
        if scope >= self.frames.len() {
            return None;
        }
        let key = String::from_str(name);
        let ghost e = self@;
        let mut i = scope;
        loop
            invariant
                self.wf(),
                e == self@,
                i < self.frames@.len(),
                key@ == name@,
                lookup_at(e.vars, e.parents, scope as int, name@) == lookup_at(e.vars, e.parents, i as int, name@),
            decreases i,
        {
            let ghost f = self.frames@[i as int]@;
            assert(e.vars[i as int] == frame_map(f));
            assert(keys_distinct(f));
            proof {
                lemma_frame_map_entries(f);
            }
            match find_key(&self.frames[i], &key) {
                Some(j) => {
                    assert(e.vars[i as int].contains_key(name@));
                    return Some(crate::value::copy_value(&self.frames[i][j].1));
                },
                None => {
                    proof {
                        lemma_frame_map_absent(f, name@);
                    }
                    let p = self.parents[i];
                    if p < i {
                        i = p;
                    } else {
                        return None;
                    }
                },
            }
        }
    }

    /// The value of `name` seen from the current scope.
    pub fn get(&self, name: &str) -> (r: Option<Value>)
        requires
            self.wf(),
        ensures
            match r {
                Some(v) => env_lookup(self@, name@) == Some(v@),
                None => env_lookup(self@, name@) is None,
            },
    {
        self.get_in(self.current, name)
    }

    /// Gives `name` a new value in the nearest scope that binds it, seen from
    /// the current scope; an error where none does.
    pub fn set(&mut self, name: &str, value: Value) -> (r: Result<(), RispyError>)
        requires
            old(self).wf(),
        ensures
            final(self).wf(),
            match env_assign(old(self)@, name@, value@) {
                Some(e) => r is Ok && final(self)@ == e,
                None => final(self)@ == old(self)@ && (r matches Err(x)
                    && x@ == ErrorView::Undefined("Cannot set undefined variable: "@ + name@)),
            },
    {
        let key = String::from_str(name);
        let ghost e = self@;
        let ghost val = value@;
        let mut i = self.current;
        loop
            invariant
                self.wf(),
                e == self@,
                self.frames@ == old(self).frames@,
                self.parents@ == old(self).parents@,
                self.current == old(self).current,
                i < self.frames@.len(),
                key@ == name@,
                val == value@,
                assign_at(e.vars, e.parents, e.current as int, name@, val) == assign_at(e.vars, e.parents, i as int, name@, val),
            decreases i,
        {
            let ghost f = self.frames@[i as int]@;
            assert(e.vars[i as int] == frame_map(f));
            assert(keys_distinct(f));
            proof {
                lemma_frame_map_entries(f);
            }
            match find_key(&self.frames[i], &key) {
                Some(j) => {
                    assert(e.vars[i as int].contains_key(name@));
                    let ghost frames0 = self.frames@;
                    let mut frame: Vec<(String, Value)> = Vec::new();
                    self.frames.set_and_swap(i, &mut frame);
                    assert(frame@ == f);
                    proof {
                        lemma_frame_map_update(f, j as int, (key, value));
                    }
                    frame.set(j, (key, value));
                    let ghost new_frame = frame@;
                    self.frames.set_and_swap(i, &mut frame);
                    proof {
                        assert(self.frames@[i as int]@ == new_frame);
                        assert forall|m: int| 0 <= m < self.frames@.len() implies keys_distinct(#[trigger] self.frames@[m]@) by {
                            if m != i {
                                assert(self.frames@[m] == frames0[m]);
                            }
                        }
                        assert(self@.vars =~= e.vars.update(i as int, e.vars[i as int].insert(name@, val)));
                        assert(self@.parents == e.parents);
                    }
                    return Ok(());
                },
                None => {
                    proof {
                        lemma_frame_map_absent(f, name@);
                    }
                    let p = self.parents[i];
                    if p < i {
                        i = p;
                    } else {
                        return Err(RispyError::UndefinedSymbol(join("Cannot set undefined variable: ", name)));
                    }
                },
            }
        }
    }
}

/// The macros known to an expander: a chain of scopes of macro definitions.
pub struct MacroEnvironment {
    scopes: Scopes<MacroFunction>,
}

impl View for MacroEnvironment {
    type V = Seq<Map<Seq<char>, FunctionView>>;

    closed spec fn view(&self) -> Seq<Map<Seq<char>, FunctionView>> {
        self.scopes.view()
    }
}

impl MacroEnvironment {
    pub closed spec fn wf(&self) -> bool {
        self.scopes.wf()
    }

    /// A macro environment with one empty scope.
    pub fn new() -> (e: MacroEnvironment)
        ensures
            e.wf(),
            e@ == seq![Map::<Seq<char>, FunctionView>::empty()],
    {
        MacroEnvironment { scopes: Scopes::new() }
    }

    /// `parent` with a new, empty innermost scope.
    pub fn with_parent(parent: MacroEnvironment) -> (e: MacroEnvironment)
        requires
            parent.wf(),
        ensures
            e.wf(),
            e@ == parent@.push(Map::empty()),
    {
        let mut e = parent;
        e.scopes.push_scope();
        e
    }

    /// Defines (or redefines) a macro in the innermost scope.
    pub fn define(&mut self, name: String, macro_func: MacroFunction)
        requires
            old(self).wf(),
        ensures
            final(self).wf(),
            final(self)@ == bind(old(self)@, name@, macro_func@),
    {
        self.scopes.define(name, macro_func)
    }

    /// The macro of that name, from the innermost scope that has one.
    pub fn get(&self, name: &str) -> (r: Option<MacroFunction>)
        requires
            self.wf(),
        ensures
            match r {
                Some(m) => lookup(self@, name@) == Some(m@),
                None => lookup(self@, name@) is None,
            },
    {
        self.scopes.get(name)
    }

    /// Whether a macro of that name is known.
    pub fn has_macro(&self, name: &str) -> (b: bool)
        requires
            self.wf(),
        ensures
            b == lookup(self@, name@) is Some,
    {
        self.get(name).is_some()
    }

    /// Makes a name known as a macro before its definition: a macro without
    /// parameters whose template is nil.
    pub fn declare_placeholder(&mut self, name: String)
        requires
            old(self).wf(),
        ensures
            final(self).wf(),
            final(self)@ == bind(old(self)@, name@, FunctionView::Macro {
                name: name@,
                params: seq![],
                body: ValueView::Nil,
            }),
    {
        let placeholder = MacroFunction { name: name.clone(), params: Vec::new(), body: Box::new(Value::Nil) };
        assert(strings_view(placeholder.params@) =~= Seq::<Seq<char>>::empty());
        self.scopes.define(name, placeholder)
    }
}
} // verus!
