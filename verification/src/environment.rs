use crate::eval::RuntimeError;
use crate::eval::SpecValue;
use crate::eval::Value;
use vstd::prelude::*;

verus! {

/// One lexical scope: bindings in the order they were written, where a later
/// binding of a name shadows an earlier one.
pub open spec fn scope_lookup(sc: Seq<(Seq<char>, SpecValue)>, n: Seq<char>) -> Option<SpecValue>
    decreases sc.len(),
{
    if sc.len() == 0 {
        None
    } else if sc.last().0 == n {
        Some(sc.last().1)
    } else {
        scope_lookup(sc.drop_last(), n)
    }
}

/// A name's value in a scope chain, innermost scope first.
pub open spec fn env_lookup(
    scopes: Seq<Seq<(Seq<char>, SpecValue)>>,
    n: Seq<char>,
) -> Option<SpecValue>
    decreases scopes.len(),
{
    if scopes.len() == 0 {
        None
    } else {
        match scope_lookup(scopes.last(), n) {
            Some(v) => Some(v),
            None => env_lookup(scopes.drop_last(), n),
        }
    }
}

/// The chain after an assignment: the innermost scope that binds the name
/// receives the new binding; a chain that nowhere binds it stays untouched
/// and the assignment fails.
pub open spec fn env_assign_spec(
    scopes: Seq<Seq<(Seq<char>, SpecValue)>>,
    n: Seq<char>,
    v: SpecValue,
) -> Option<Seq<Seq<(Seq<char>, SpecValue)>>>
    decreases scopes.len(),
{
    if scopes.len() == 0 {
        None
    } else if scope_lookup(scopes.last(), n) is Some {
        Some(scopes.update(scopes.len() - 1, scopes.last().push((n, v))))
    } else {
        match env_assign_spec(scopes.drop_last(), n, v) {
            Some(outer) => Some(outer.push(scopes.last())),
            None => None,
        }
    }
}

/// The chain with the innermost scope dropped; an empty chain stays empty.
pub open spec fn env_pop_spec(
    scopes: Seq<Seq<(Seq<char>, SpecValue)>>,
) -> Seq<Seq<(Seq<char>, SpecValue)>> {
    if scopes.len() > 0 {
        scopes.drop_last()
    } else {
        scopes
    }
}

/// The chain with `name` bound to `value` in the innermost scope; an empty
/// chain stays empty.
pub open spec fn env_define_spec(
    scopes: Seq<Seq<(Seq<char>, SpecValue)>>,
    n: Seq<char>,
    v: SpecValue,
) -> Seq<Seq<(Seq<char>, SpecValue)>> {
    if scopes.len() > 0 {
        scopes.update(scopes.len() - 1, scopes.last().push((n, v)))
    } else {
        scopes
    }
}

/// A chained mapping from name to value, one scope per lexical block,
/// supporting shadowing and mutation through enclosing scopes.
pub struct Environment {
    scopes: Vec<Vec<(String, Value)>>,
}

impl View for Environment {
    type V = Seq<Seq<(Seq<char>, SpecValue)>>;

    closed spec fn view(&self) -> Seq<Seq<(Seq<char>, SpecValue)>> {
        self.scopes@.map_values(
            |sc: Vec<(String, Value)>| sc@.map_values(|p: (String, Value)| (p.0@, p.1@)),
        )
    }
}

impl Environment {
    /// A chain of one empty scope.
    pub fn new() -> (e: Environment)
        ensures
            e@ =~~= seq![Seq::<(Seq<char>, SpecValue)>::empty()],
    {
        let mut scopes: Vec<Vec<(String, Value)>> = Vec::new();
        scopes.push(Vec::new());
        let e = Environment { scopes };
        proof {
            assert(e@ =~~= seq![Seq::<(Seq<char>, SpecValue)>::empty()]);
        }
        e
    }

    /// The given chain with a new empty innermost scope on top.
    pub fn new_from(enclosing: Environment) -> (e: Environment)
        ensures
            e@ =~~= enclosing@.push(Seq::empty()),
    {
        let ghost base = enclosing@;
        let mut e = enclosing;
        e.scopes.push(Vec::new());
        proof {
            assert(e@ =~~= base.push(Seq::empty()));
        }
        e
    }

    /// Enter a nested scope.
    pub fn push_scope(&mut self)
        ensures
            final(self)@ =~~= old(self)@.push(Seq::empty()),
    {
        self.scopes.push(Vec::new());
    }

    /// Leave the innermost scope, discarding its bindings; an empty chain
    /// stands still.
    pub fn pop_scope(&mut self)
        ensures
            final(self)@ =~~= env_pop_spec(old(self)@),
    {
        let n = self.scopes.len();
        if n > 0 {
            let _ = self.scopes.pop();
        }
    }

    /// Bind `name` to `value` in the innermost scope, shadowing any outer
    /// binding of the same name; an empty chain stands still.
    pub fn define(&mut self, name: String, value: Value)
        ensures
            final(self)@ =~~= env_define_spec(old(self)@, name@, value@),
    {
        let n = self.scopes.len();
        if n > 0 {
            self.scopes[n - 1].push((name, value));
        }
    }
}

proof fn lemma_scope_lookup_found(sc: Seq<(Seq<char>, SpecValue)>, n: Seq<char>, i: int)
    requires
        0 <= i < sc.len(),
        sc[i].0 == n,
        forall|j: int| i < j < sc.len() ==> sc[j].0 != n,
    ensures
        scope_lookup(sc, n) == Some(sc[i].1),
    decreases sc.len(),
{
    if i < sc.len() - 1 {
        lemma_scope_lookup_found(sc.drop_last(), n, i);
    }
}

proof fn lemma_scope_lookup_absent(sc: Seq<(Seq<char>, SpecValue)>, n: Seq<char>)
    requires
        forall|j: int| 0 <= j < sc.len() ==> sc[j].0 != n,
    ensures
        scope_lookup(sc, n) is None,
    decreases sc.len(),
{
    if sc.len() > 0 {
        lemma_scope_lookup_absent(sc.drop_last(), n);
    }
}

proof fn lemma_env_lookup_from(scopes: Seq<Seq<(Seq<char>, SpecValue)>>, n: Seq<char>, si: int)
    requires
        0 <= si <= scopes.len(),
        forall|k: int| si <= k < scopes.len() ==> scope_lookup(scopes[k], n) is None,
    ensures
        env_lookup(scopes, n) == env_lookup(scopes.subrange(0, si), n),
    decreases scopes.len() - si,
{
    assert(scopes.subrange(0, scopes.len() as int) =~= scopes);
    if si < scopes.len() {
        lemma_env_lookup_from(scopes, n, si + 1);
        assert(scopes.subrange(0, si + 1).drop_last() =~= scopes.subrange(0, si));
        assert(scopes.subrange(0, si + 1).last() == scopes[si]);
        assert(env_lookup(scopes.subrange(0, si + 1), n) == env_lookup(
            scopes.subrange(0, si),
            n,
        ));
        assert(scopes.subrange(0, scopes.len() as int) =~= scopes);
    }
}

proof fn lemma_env_assign_at(
    scopes: Seq<Seq<(Seq<char>, SpecValue)>>,
    n: Seq<char>,
    v: SpecValue,
    si: int,
)
    requires
        0 <= si < scopes.len(),
        scope_lookup(scopes[si], n) is Some,
        forall|k: int| si < k < scopes.len() ==> scope_lookup(scopes[k], n) is None,
    ensures
        env_assign_spec(scopes, n, v) == Some(scopes.update(si, scopes[si].push((n, v)))),
    decreases scopes.len(),
{
    if si == scopes.len() - 1 {
        assert(scopes.update(si, scopes[si].push((n, v))) =~= scopes.update(
            scopes.len() - 1,
            scopes.last().push((n, v)),
        ));
    } else {
        lemma_env_assign_at(scopes.drop_last(), n, v, si);
        assert(scopes.drop_last().update(si, scopes[si].push((n, v))).push(scopes.last()) =~=
            scopes.update(si, scopes[si].push((n, v))));
    }
}

proof fn lemma_env_assign_none(scopes: Seq<Seq<(Seq<char>, SpecValue)>>, n: Seq<char>, v: SpecValue)
    requires
        forall|k: int| 0 <= k < scopes.len() ==> scope_lookup(scopes[k], n) is None,
    ensures
        env_assign_spec(scopes, n, v) is None,
    decreases scopes.len(),
{
    if scopes.len() > 0 {
        lemma_env_assign_none(scopes.drop_last(), n, v);
    }
}

impl Environment {
    /// Whether `name` is bound in the scope with index `si`, and the index
    /// of its latest binding there.
    #[verifier::loop_isolation(false)]
    fn find_in_scope(&self, si: usize, name: &str) -> (r: Option<usize>)
        requires
            si < self@.len(),
        ensures
            r matches Some(ei) ==> ei < self@[si as int].len() && self@[si as int][ei as int].0
                == name@ && (forall|j: int|
                ei < j < self@[si as int].len() ==> self@[si as int][j].0 != name@),
            r is None ==> forall|j: int| 0 <= j < self@[si as int].len() ==> self@[si as int][j].0
                != name@,
    {
        let sc = &self.scopes[si];
        let mut ei = sc.len();
        while ei > 0
            invariant
                ei <= sc.len(),
                forall|j: int| ei <= j < self@[si as int].len() ==> self@[si as int][j].0 != name@,
            decreases ei,
        {
            ei = ei - 1;
            if sc[ei].0 == name.to_owned() {
                return Some(ei);
            }
        }
        None
    }

    /// The value of `name`: the innermost scope that binds it answers, a
    /// later binding shadowing an earlier one; a name no scope binds has no
    /// value.
    #[verifier::loop_isolation(false)]
    pub fn get(&self, name: &str) -> (r: Option<Value>)
        ensures
            r is Some <==> env_lookup(self@, name@) is Some,
            r matches Some(v) ==> env_lookup(self@, name@) == Some(v@),
    {
        let mut si = self.scopes.len();
        while si > 0
            invariant
                si <= self@.len(),
                forall|k: int| si <= k < self@.len() ==> scope_lookup(self@[k], name@) is None,
            decreases si,
        {
            si = si - 1;
            match self.find_in_scope(si, name) {
                Some(ei) => {
                    proof {
                        lemma_scope_lookup_found(self@[si as int], name@, ei as int);
                        lemma_env_lookup_from(self@, name@, si as int + 1);
                        assert(self@.subrange(0, si as int + 1).last() == self@[si as int]);
                    }
                    return Some(self.scopes[si][ei].1.clone());
                },
                None => {
                    proof {
                        lemma_scope_lookup_absent(self@[si as int], name@);
                    }
                },
            }
        }
        proof {
            lemma_env_lookup_from(self@, name@, 0);
        }
        None
    }

    /// Overwrite the binding of `name` in the innermost scope of the chain
    /// that binds it. A name no scope binds is reported as an undefined
    /// variable and the chain stands unchanged: assignment never creates a
    /// binding.
    #[verifier::loop_isolation(false)]
    pub fn assign(&mut self, name: &str, value: Value) -> (r: Result<(), RuntimeError>)
        ensures
            r is Ok <==> env_assign_spec(old(self)@, name@, value@) is Some,
            r is Ok ==> Some(final(self)@) == env_assign_spec(old(self)@, name@, value@),
            r is Err ==> final(self)@ == old(self)@,
            r matches Err(e) ==> e is UndefinedVariable && e->UndefinedVariable_0@ == name@,
    {
        let mut si = self.scopes.len();
        while si > 0
            invariant
                si <= self@.len(),
                self@ == old(self)@,
                forall|k: int| si <= k < self@.len() ==> scope_lookup(self@[k], name@) is None,
            decreases si,
        {
            si = si - 1;
            match self.find_in_scope(si, name) {
                Some(ei) => {
                    proof {
                        lemma_scope_lookup_found(self@[si as int], name@, ei as int);
                        lemma_env_assign_at(self@, name@, value@, si as int);
                    }
                    let ghost before = self@;
                    self.scopes[si].push((name.to_owned(), value));
                    proof {
                        assert(self@ =~~= before.update(
                            si as int,
                            before[si as int].push((name@, value@)),
                        ));
                    }
                    return Ok(());
                },
                None => {
                    proof {
                        lemma_scope_lookup_absent(self@[si as int], name@);
                    }
                },
            }
        }
        proof {
            lemma_env_assign_none(self@, name@, value@);
        }
        Err(RuntimeError::UndefinedVariable(name.to_owned()))
    }
}

} // verus!
