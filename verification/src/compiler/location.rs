//! Locations of functions, branches and expressions in the syntax tree.

use vstd::prelude::*;

use crate::compiler::table::Key;

verus! {

/// # The index of a named function in the root context
#[derive(Clone, Copy, Debug, PartialEq, Eq, Structural)]
pub struct FunctionIndexInRootContext(pub u32);

/// # The index of a branch within its function
#[derive(Clone, Copy, Debug, PartialEq, Eq, Structural)]
pub struct BranchIndex(pub u32);

/// # The index of a fragment within the body of its branch
#[derive(Clone, Copy, Debug, PartialEq, Eq, Structural)]
pub struct FragmentIndexInBranchBody(pub u32);

/// # The location of a function
#[derive(Debug, PartialEq, Eq)]
pub enum FunctionLocation {
    NamedFunction { index: FunctionIndexInRootContext },
    AnonymousFunction { location: Box<MemberLocation> },
}

/// # The location of a branch
#[derive(Debug, PartialEq, Eq)]
pub struct BranchLocation {
    pub parent: Box<FunctionLocation>,
    pub index: BranchIndex,
}

/// # The location of a member of a branch body: an expression or a comment
#[derive(Debug, PartialEq, Eq)]
pub struct MemberLocation {
    pub parent: Box<BranchLocation>,
    pub index: FragmentIndexInBranchBody,
}

/// # Whether two function locations are the same
pub fn same_function(a: &FunctionLocation, b: &FunctionLocation) -> (result: bool)
    ensures
        result == (*a == *b),
    decreases a,
{
    match (a, b) {
        (
            FunctionLocation::NamedFunction { index: x },
            FunctionLocation::NamedFunction { index: y },
        ) => x.0 == y.0,
        (
            FunctionLocation::AnonymousFunction { location: x },
            FunctionLocation::AnonymousFunction { location: y },
        ) => same_member(x, y),
        _ => false,
    }
}

/// # Whether two branch locations are the same
pub fn same_branch(a: &BranchLocation, b: &BranchLocation) -> (result: bool)
    ensures
        result == (*a == *b),
    decreases a,
{
    a.index.0 == b.index.0 && same_function(&a.parent, &b.parent)
}

/// # Whether two member locations are the same
pub fn same_member(a: &MemberLocation, b: &MemberLocation) -> (result: bool)
    ensures
        result == (*a == *b),
    decreases a,
{
    a.index.0 == b.index.0 && same_branch(&a.parent, &b.parent)
}

/// How two numbers are ordered: `-1`, `0` or `1`
pub open spec fn order_of(a: u32, b: u32) -> int {
    if a < b {
        -1
    } else if a == b {
        0
    } else {
        1
    }
}

/// How two function locations are ordered: named functions first, by their
/// index; anonymous functions by the location of the member that defines
/// them
pub open spec fn function_order(a: FunctionLocation, b: FunctionLocation) -> int
    decreases a,
{
    match (a, b) {
        (FunctionLocation::NamedFunction { index: x }, FunctionLocation::NamedFunction { index: y }) => order_of(x.0, y.0),
        (FunctionLocation::NamedFunction { .. }, FunctionLocation::AnonymousFunction { .. }) => -1,
        (FunctionLocation::AnonymousFunction { .. }, FunctionLocation::NamedFunction { .. }) => 1,
        (FunctionLocation::AnonymousFunction { location: x }, FunctionLocation::AnonymousFunction { location: y }) => member_order(*x, *y),
    }
}

/// How two branch locations are ordered: by their function, then by their
/// index
pub open spec fn branch_order(a: BranchLocation, b: BranchLocation) -> int
    decreases a,
{
    let by_function = function_order(*a.parent, *b.parent);
    if by_function != 0 {
        by_function
    } else {
        order_of(a.index.0, b.index.0)
    }
}

/// How two member locations are ordered: by their branch, then by their
/// index
pub open spec fn member_order(a: MemberLocation, b: MemberLocation) -> int
    decreases a,
{
    let by_branch = branch_order(*a.parent, *b.parent);
    if by_branch != 0 {
        by_branch
    } else {
        order_of(a.index.0, b.index.0)
    }
}

/// # How two function locations are ordered
pub fn compare_functions(a: &FunctionLocation, b: &FunctionLocation) -> (result: i8)
    ensures
        result == function_order(*a, *b),
    decreases a,
{
    match (a, b) {
        (FunctionLocation::NamedFunction { index: x }, FunctionLocation::NamedFunction { index: y }) => compare_numbers(x.0, y.0),
        (FunctionLocation::NamedFunction { .. }, FunctionLocation::AnonymousFunction { .. }) => -1,
        (FunctionLocation::AnonymousFunction { .. }, FunctionLocation::NamedFunction { .. }) => 1,
        (FunctionLocation::AnonymousFunction { location: x }, FunctionLocation::AnonymousFunction { location: y }) => compare_members(x, y),
    }
}

/// # How two branch locations are ordered
pub fn compare_branches(a: &BranchLocation, b: &BranchLocation) -> (result: i8)
    ensures
        result == branch_order(*a, *b),
    decreases a,
{
    let by_function = compare_functions(&a.parent, &b.parent);
    if by_function != 0 {
        by_function
    } else {
        compare_numbers(a.index.0, b.index.0)
    }
}

/// # How two member locations are ordered
pub fn compare_members(a: &MemberLocation, b: &MemberLocation) -> (result: i8)
    ensures
        result == member_order(*a, *b),
    decreases a,
{
    let by_branch = compare_branches(&a.parent, &b.parent);
    if by_branch != 0 {
        by_branch
    } else {
        compare_numbers(a.index.0, b.index.0)
    }
}

/// # How two numbers are ordered
fn compare_numbers(a: u32, b: u32) -> (result: i8)
    ensures
        result == order_of(a, b),
{
    if a < b {
        -1
    } else if a == b {
        0
    } else {
        1
    }
}

/// The order of function locations is one: swapping two flips it, it holds
/// them equal only where they are, and it is transitive
pub proof fn lemma_function_order(a: FunctionLocation, b: FunctionLocation, c: FunctionLocation)
    ensures
        function_order(a, b) == -function_order(b, a),
        function_order(a, b) == 0 <==> a == b,
        function_order(a, c) == 0 <==> a == c,
        function_order(a, b) <= 0 && function_order(b, c) <= 0 ==> function_order(a, c) <= 0,
    decreases a,
{
    if let FunctionLocation::AnonymousFunction { location: x } = a {
        let y = match b {
            FunctionLocation::AnonymousFunction { location: y } => *y,
            _ => *x,
        };
        let z = match c {
            FunctionLocation::AnonymousFunction { location: z } => *z,
            _ => *x,
        };
        lemma_member_order(*x, y, z);
    }
}

/// The order of branch locations is one
pub proof fn lemma_branch_order(a: BranchLocation, b: BranchLocation, c: BranchLocation)
    ensures
        branch_order(a, b) == -branch_order(b, a),
        branch_order(a, b) == 0 <==> a == b,
        branch_order(a, c) == 0 <==> a == c,
        branch_order(a, b) <= 0 && branch_order(b, c) <= 0 ==> branch_order(a, c) <= 0,
    decreases a,
{
    lemma_function_order(*a.parent, *b.parent, *c.parent);
}

/// The order of member locations is one
pub proof fn lemma_member_order(a: MemberLocation, b: MemberLocation, c: MemberLocation)
    ensures
        member_order(a, b) == -member_order(b, a),
        member_order(a, b) == 0 <==> a == b,
        member_order(a, c) == 0 <==> a == c,
        member_order(a, b) <= 0 && member_order(b, c) <= 0 ==> member_order(a, c) <= 0,
    decreases a,
{
    lemma_branch_order(*a.parent, *b.parent, *c.parent);
}

/// # A copy of a function location
pub fn copy_function(location: &FunctionLocation) -> (result: FunctionLocation)
    ensures
        result == *location,
    decreases location,
{
    match location {
        FunctionLocation::NamedFunction { index } => FunctionLocation::NamedFunction { index: *index },
        FunctionLocation::AnonymousFunction { location } => FunctionLocation::AnonymousFunction {
            location: Box::new(copy_member(location)),
        },
    }
}

/// # A copy of a branch location
pub fn copy_branch(location: &BranchLocation) -> (result: BranchLocation)
    ensures
        result == *location,
    decreases location,
{
    BranchLocation { parent: Box::new(copy_function(&location.parent)), index: location.index }
}

/// # A copy of a member location
pub fn copy_member(location: &MemberLocation) -> (result: MemberLocation)
    ensures
        result == *location,
    decreases location,
{
    MemberLocation { parent: Box::new(copy_branch(&location.parent)), index: location.index }
}

impl Clone for FunctionLocation {
    fn clone(&self) -> (result: Self)
        ensures
            result == *self,
    {
        copy_function(self)
    }
}

impl Clone for BranchLocation {
    fn clone(&self) -> (result: Self)
        ensures
            result == *self,
    {
        copy_branch(self)
    }
}

impl Clone for MemberLocation {
    fn clone(&self) -> (result: Self)
        ensures
            result == *self,
    {
        copy_member(self)
    }
}

impl Key for FunctionLocation {
    fn same_key(&self, other: &Self) -> (result: bool) {
        same_function(self, other)
    }

    fn copy_key(&self) -> (result: Self) {
        copy_function(self)
    }
}

impl Key for BranchLocation {
    fn same_key(&self, other: &Self) -> (result: bool) {
        same_branch(self, other)
    }

    fn copy_key(&self) -> (result: Self) {
        copy_branch(self)
    }
}

impl Key for MemberLocation {
    fn same_key(&self, other: &Self) -> (result: bool) {
        same_member(self, other)
    }

    fn copy_key(&self) -> (result: Self) {
        copy_member(self)
    }
}

} // verus!
