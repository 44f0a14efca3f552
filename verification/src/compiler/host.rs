//! The host: the environment that compiled code runs in, and the functions
//! it provides to that code.

use vstd::prelude::*;

verus! {

/// # A function that the host provides
#[derive(Debug, PartialEq, Eq)]
pub struct HostFunction {
    /// The name that code calls the function by
    pub name: String,
    /// The number that identifies the function at runtime
    pub number: u8,
}

impl Clone for HostFunction {
    fn clone(&self) -> (result: Self)
        ensures
            result == *self,
    {
        HostFunction { name: self.name.clone(), number: self.number }
    }
}

/// The first of the functions whose name is `name`
pub open spec fn first_named(functions: Seq<HostFunction>, name: Seq<char>) -> Option<HostFunction> {
    if exists|i: int| 0 <= i < functions.len() && functions[i].name@ == name {
        let i = choose|i: int|
            0 <= i < functions.len() && functions[i].name@ == name && forall|j: int|
                0 <= j < i ==> functions[j].name@ != name;
        Some(functions[i])
    } else {
        None
    }
}

/// The first of the functions whose number is `number`
pub open spec fn first_numbered(functions: Seq<HostFunction>, number: u8) -> Option<HostFunction> {
    if exists|i: int| 0 <= i < functions.len() && functions[i].number == number {
        let i = choose|i: int|
            0 <= i < functions.len() && functions[i].number == number && forall|j: int|
                0 <= j < i ==> functions[j].number != number;
        Some(functions[i])
    } else {
        None
    }
}

/// # The environment that compiled code runs in
pub trait Host {
    /// The functions that the host provides
    spec fn function_list(&self) -> Seq<HostFunction>;

    /// # The functions that the host provides
    fn functions(&self) -> (result: Vec<HostFunction>)
        ensures
            result@ == self.function_list(),
    ;

    /// # The function with the given name, if the host provides one
    fn function_by_name(&self, name: &str) -> (result: Option<HostFunction>)
        ensures
            result == first_named(self.function_list(), name@),
    {
        let functions = self.functions();
        let owned = name.to_owned();
        let mut i: usize = 0;
        while i < functions.len()
            invariant
                i <= functions@.len(),
                functions@ == self.function_list(),
                owned@ == name@,
                forall|j: int| 0 <= j < i ==> functions@[j].name@ != name@,
            decreases functions@.len() - i,
        {
            if functions[i].name == owned {
                let ghost k = choose|k: int|
                    0 <= k < functions@.len() && functions@[k].name@ == name@ && forall|j: int|
                        0 <= j < k ==> functions@[j].name@ != name@;
                assert(0 <= i < functions@.len() && functions@[i as int].name@ == name@ && forall|j: int|
                    0 <= j < i ==> functions@[j].name@ != name@);
                proof {
                    if k < i {
                    } else if k > i {
                        assert(functions@[i as int].name@ != name@);
                    }
                }
                return Some(functions[i].clone());
            }
            i = i + 1;
        }
        None
    }

    /// # The function with the given number, if the host provides one
    fn function_by_number(&self, number: u8) -> (result: Option<HostFunction>)
        ensures
            result == first_numbered(self.function_list(), number),
    {
        let functions = self.functions();
        let mut i: usize = 0;
        while i < functions.len()
            invariant
                i <= functions@.len(),
                functions@ == self.function_list(),
                forall|j: int| 0 <= j < i ==> functions@[j].number != number,
            decreases functions@.len() - i,
        {
            if functions[i].number == number {
                let ghost k = choose|k: int|
                    0 <= k < functions@.len() && functions@[k].number == number && forall|j: int|
                        0 <= j < k ==> functions@[j].number != number;
                assert(0 <= i < functions@.len() && functions@[i as int].number == number && forall|j: int|
                    0 <= j < i ==> functions@[j].number != number);
                proof {
                    if k < i {
                    } else if k > i {
                        assert(functions@[i as int].number != number);
                    }
                }
                return Some(functions[i].clone());
            }
            i = i + 1;
        }
        None
    }
}

/// # A host that provides no functions
#[derive(Clone, Copy, Debug)]
pub struct NoHost;

impl Host for NoHost {
    open spec fn function_list(&self) -> Seq<HostFunction> {
        Seq::empty()
    }

    fn functions(&self) -> (result: Vec<HostFunction>) {
        Vec::new()
    }
}

/// # A host that provides the functions of a list
#[derive(Clone, Debug)]
pub struct ListHost {
    functions: Vec<HostFunction>,
}

impl ListHost {
    /// # A host that provides the given functions
    pub fn new(functions: Vec<HostFunction>) -> (result: Self)
        ensures
            result.function_list() == functions@,
    {
        ListHost { functions }
    }
}

impl Host for ListHost {
    closed spec fn function_list(&self) -> Seq<HostFunction> {
        self.functions@
    }

    fn functions(&self) -> (result: Vec<HostFunction>) {
        let mut result: Vec<HostFunction> = Vec::new();
        let mut i: usize = 0;
        while i < self.functions.len()
            invariant
                i <= self.functions@.len(),
                result@ == self.functions@.take(i as int),
            decreases self.functions@.len() - i,
        {
            result.push(self.functions[i].clone());
            i = i + 1;
            assert(result@ =~= self.functions@.take(i as int));
        }
        assert(self.functions@.take(i as int) =~= self.functions@);
        result
    }
}

} // verus!
