//! Packages: the functions that code can call, beyond its own.

use vstd::prelude::*;

use crate::language::chars_equal;
use crate::nodes::FunctionId;
use crate::text::chars_of;

verus! {

/// # The functions that packages provide, by name
///
/// A function's id is its position among them.
pub struct Packages {
    functions: Vec<String>,
}

/// The id of the first function with the given name, if any
pub open spec fn resolved_function(names: Seq<Seq<char>>, name: Seq<char>) -> Option<FunctionId> {
    if exists|i: int| 0 <= i < names.len() && names[i] == name {
        let i = choose|i: int|
            0 <= i < names.len() && names[i] == name && forall|j: int|
                0 <= j < i ==> names[j] != name;
        Some(FunctionId(i as u32))
    } else {
        None
    }
}

impl Packages {
    #[verifier::type_invariant]
    spec fn ids_fit(&self) -> bool {
        self.functions@.len() <= u32::MAX
    }

    /// The names of the functions, by their ids
    pub closed spec fn function_names(&self) -> Seq<Seq<char>> {
        self.functions@.map_values(|name: String| name@)
    }

    /// # No packages, so no functions
    pub fn new() -> (result: Self)
        ensures
            result.function_names() == Seq::<Seq<char>>::empty(),
    {
        let result = Packages { functions: Vec::new() };
        assert(result.function_names() =~= Seq::<Seq<char>>::empty());
        result
    }

    /// # Provide a function with the given name
    pub fn add_function(&mut self, name: &str) -> (id: FunctionId)
        requires
            old(self).function_names().len() < u32::MAX,
        ensures
            final(self).function_names() == old(self).function_names().push(name@),
            id.0 == old(self).function_names().len(),
    {
        let mut functions = Vec::new();
        std::mem::swap(&mut functions, &mut self.functions);
        let id = FunctionId(functions.len() as u32);
        functions.push(name.to_owned());
        self.functions = functions;
        assert(self.function_names() =~= old(self).function_names().push(name@));
        id
    }

    /// # The function with the given name, if a package provides one
    ///
    /// Where several have the name, the first one.
    pub fn resolve_function(&self, name: &str) -> (result: Option<FunctionId>)
        ensures
            result == resolved_function(self.function_names(), name@),
    {
        proof {
            use_type_invariant(self);
        }
        let wanted = chars_of(name);
        let ghost names = self.function_names();
        let mut i: usize = 0;
        while i < self.functions.len()
            invariant
                i <= self.functions@.len(),
                self.functions@.len() <= u32::MAX,
                names == self.function_names(),
                wanted@ == name@,
                forall|j: int| 0 <= j < i ==> names[j] != name@,
            decreases self.functions@.len() - i,
        {
            let candidate = chars_of(self.functions[i].as_str());
            if chars_equal(&candidate, &wanted) {
                proof {
                    assert(names[i as int] == name@);
                    let k = choose|k: int|
                        0 <= k < names.len() && names[k] == name@ && forall|j: int|
                            0 <= j < k ==> names[j] != name@;
                    assert(0 <= i < names.len() && names[i as int] == name@ && forall|j: int|
                        0 <= j < i ==> names[j] != name@);
                    if k < i {
                        assert(names[k] != name@);
                    } else if k > i {
                        assert(names[i as int] != name@);
                    }
                }
                return Some(FunctionId(i as u32));
            }
            i = i + 1;
        }
        None
    }
}

} // verus!
