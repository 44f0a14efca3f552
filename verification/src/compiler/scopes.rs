//! Sets of names, and the nested scopes that bindings are defined in.

use vstd::prelude::*;

verus! {

/// Adding an element to a sequence adds it to the set of its elements
pub proof fn lemma_push_to_set<A>(s: Seq<A>, x: A)
    ensures
        s.push(x).to_set() == s.to_set().insert(x),
{
    let after = s.push(x);
    assert forall|n: A| after.contains(n) == (s.contains(n) || n == x) by {
        if after.contains(n) {
            let k = after.index_of(n);
            if k < s.len() {
                assert(s[k] == n);
            }
        }
        if s.contains(n) {
            let k = s.index_of(n);
            assert(after[k] == n);
        }
        if n == x {
            assert(after[s.len() as int] == n);
        }
    }
    assert(after.to_set() =~= s.to_set().insert(x));
}

/// # A set of names
#[derive(Debug)]
pub struct NameSet {
    names: Vec<String>,
}

impl Clone for NameSet {
    fn clone(&self) -> (result: Self)
        ensures
            result.view() == self.view(),
    {
        let mut names: Vec<String> = Vec::new();
        let mut i: usize = 0;
        while i < self.names.len()
            invariant
                i <= self.names@.len(),
                names@.len() == i,
                forall|k: int| 0 <= k < i ==> names@[k]@ == self.names@[k]@,
            decreases self.names@.len() - i,
        {
            names.push(self.names[i].clone());
            i = i + 1;
        }
        let result = NameSet { names };
        assert(result.names@.map_values(|name: String| name@) =~= self.names@.map_values(
            |name: String| name@,
        ));
        result
    }
}

impl NameSet {
    /// The names
    pub closed spec fn view(&self) -> Set<Seq<char>> {
        self.names@.map_values(|name: String| name@).to_set()
    }

    /// # An empty set of names
    pub fn new() -> (result: Self)
        ensures
            result.view() == Set::<Seq<char>>::empty(),
    {
        let result = NameSet { names: Vec::new() };
        assert(result.view() =~= Set::<Seq<char>>::empty());
        result
    }

    /// # Whether the set contains the name
    pub fn contains(&self, name: &str) -> (result: bool)
        ensures
            result == self.view().contains(name@),
    {
        let owned = name.to_owned();
        self.contains_string(&owned)
    }

    /// # Whether the set contains the name
    pub fn contains_string(&self, name: &String) -> (result: bool)
        ensures
            result == self.view().contains(name@),
    {
        let mut i: usize = 0;
        while i < self.names.len()
            invariant
                i <= self.names@.len(),
                forall|j: int| 0 <= j < i ==> self.names@[j]@ != name@,
            decreases self.names@.len() - i,
        {
            if self.names[i] == *name {
                assert(self.names@.map_values(|name: String| name@)[i as int] == name@);
                return true;
            }
            i = i + 1;
        }
        proof {
            if self.view().contains(name@) {
                let names = self.names@.map_values(|name: String| name@);
                let k = names.index_of(name@);
                assert(names[k] == name@);
                assert(self.names@[k]@ == name@);
            }
        }
        false
    }

    /// # Add a name to the set
    pub fn insert(&mut self, name: String)
        ensures
            final(self).view() == old(self).view().insert(name@),
    {
        if self.contains_string(&name) {
            assert(self.view() =~= old(self).view().insert(name@));
            return;
        }
        let ghost before = self.names@.map_values(|name: String| name@);
        self.names.push(name);
        proof {
            let after = self.names@.map_values(|name: String| name@);
            assert(after =~= before.push(name@));
            lemma_push_to_set(before, name@);
        }
    }

    /// # The names, in the order they were added
    pub fn names(&self) -> (result: &Vec<String>)
        ensures
            result@.map_values(|name: String| name@).to_set() == self.view(),
    {
        &self.names
    }
}

/// # How a name was found in the scopes
#[derive(Clone, Copy, Debug, PartialEq, Eq, Structural)]
pub enum BindingResolved {
    /// The name is bound in the innermost scope
    InScope,
    /// The name is bound in an outer scope, and must be captured into the
    /// environment of the innermost function
    InEnvironment,
}

/// Whether any of the scopes binds the name
pub open spec fn bound_in(scopes: Seq<Set<Seq<char>>>, name: Seq<char>) -> bool {
    exists|i: int| 0 <= i < scopes.len() && (#[trigger] scopes[i]).contains(name)
}

/// How a name resolves in the scopes, the innermost one last
pub open spec fn resolution(scopes: Seq<Set<Seq<char>>>, name: Seq<char>) -> Option<BindingResolved> {
    if scopes.len() > 0 && scopes.last().contains(name) {
        Some(BindingResolved::InScope)
    } else if bound_in(scopes, name) {
        Some(BindingResolved::InEnvironment)
    } else {
        None
    }
}

/// # The nested scopes that bindings are defined in, the innermost last
#[derive(Debug)]
pub struct Scopes {
    stack: Vec<NameSet>,
}

impl Scopes {
    /// The names bound in each scope, the innermost last
    pub closed spec fn view(&self) -> Seq<Set<Seq<char>>> {
        self.stack@.map_values(|scope: NameSet| scope.view())
    }

    /// # No scopes
    pub fn new() -> (result: Self)
        ensures
            result.view() == Seq::<Set<Seq<char>>>::empty(),
    {
        let result = Scopes { stack: Vec::new() };
        assert(result.view() =~= Seq::<Set<Seq<char>>>::empty());
        result
    }

    /// # Enter a scope that binds the given names
    pub fn push(&mut self, scope: NameSet)
        ensures
            final(self).view() == old(self).view().push(scope.view()),
    {
        self.stack.push(scope);
        assert(self.view() =~= old(self).view().push(scope.view()));
    }

    /// # Leave the innermost scope
    pub fn pop(&mut self)
        ensures
            final(self).view() == if old(self).view().len() == 0 {
                old(self).view()
            } else {
                old(self).view().drop_last()
            },
    {
        let _ = self.stack.pop();
        assert(self.view() =~= if old(self).view().len() == 0 {
            old(self).view()
        } else {
            old(self).view().drop_last()
        });
    }

    /// # Whether the innermost scope binds the name
    pub fn innermost_binds(&self, name: &String) -> (result: bool)
        ensures
            result == (self.view().len() > 0 && self.view().last().contains(name@)),
    {
        let len = self.stack.len();
        if len == 0 {
            return false;
        }
        self.stack[len - 1].contains_string(name)
    }

    /// # How a name resolves
    ///
    /// Where the innermost scope binds it, it is in scope. Where an outer
    /// one does, it comes from the environment.
    pub fn resolve_binding(&self, name: &str) -> (result: Option<BindingResolved>)
        ensures
            result == resolution(self.view(), name@),
    {
        let owned = name.to_owned();
        if self.innermost_binds(&owned) {
            return Some(BindingResolved::InScope);
        }
        let mut i: usize = 0;
        while i < self.stack.len()
            invariant
                i <= self.stack@.len(),
                owned@ == name@,
                !(self.view().len() > 0 && self.view().last().contains(name@)),
                forall|j: int| 0 <= j < i ==> !(#[trigger] self.view()[j]).contains(name@),
            decreases self.stack@.len() - i,
        {
            if self.stack[i].contains_string(&owned) {
                assert(self.view()[i as int].contains(name@));
                return Some(BindingResolved::InEnvironment);
            }
            i = i + 1;
        }
        None
    }
}

} // verus!
