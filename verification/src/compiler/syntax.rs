//! The syntax tree: named functions, their branches, and the expressions in
//! the bodies of those branches.

use vstd::prelude::*;

use crate::compiler::tokens::{token_view, tokens_view, Token, TokenView};
use crate::compiler::location::{
    BranchIndex, BranchLocation, FragmentIndexInBranchBody, FunctionIndexInRootContext,
    FunctionLocation, MemberLocation,
};

verus! {

/// # A pattern that a branch parameter matches
#[derive(Debug)]
pub enum Pattern {
    /// Binds the argument to a name
    Identifier { name: String },
    /// Matches an argument that equals the literal
    Literal { value: i32 },
}

/// # A member of a branch body
#[derive(Debug)]
pub enum Expression {
    /// A comment, which has no effect
    Comment { text: String },
    /// An identifier: a binding, or a call of a function
    Identifier { name: String },
    /// A number literal
    LiteralNumber { value: i32 },
    /// A function defined within the body of another
    LocalFunction { function: Function },
}

/// # A branch of a function
#[derive(Debug)]
pub struct Branch {
    pub parameters: Vec<Pattern>,
    pub body: Vec<(FragmentIndexInBranchBody, Expression)>,
}

/// # A function: named, or defined within the body of another
#[derive(Debug)]
pub struct Function {
    /// The name of the function, if it has one
    ///
    /// This is `Some` for named functions, `None` for anonymous ones.
    pub name: Option<String>,
    pub branches: Vec<(BranchIndex, Branch)>,
}

/// # The syntax tree of a program: its named functions
///
/// The function at position `i` has the index `i` in the root context.
#[derive(Debug)]
pub struct SyntaxTree {
    pub named_functions: Vec<Function>,
}


/// The token of a pattern
pub open spec fn pattern_token(pattern: Pattern) -> TokenView {
    match pattern {
        Pattern::Identifier { name } => TokenView::Identifier { name: name@ },
        Pattern::Literal { value } => TokenView::IntegerLiteral { value },
    }
}

/// The tokens of a sequence of patterns
pub open spec fn patterns_tokens(patterns: Seq<Pattern>) -> Seq<TokenView> {
    patterns.map_values(|p: Pattern| pattern_token(p))
}

/// The tokens of a member of a branch body
pub open spec fn member_tokens(member: Expression) -> Seq<TokenView>
    decreases member,
{
    match member {
        Expression::Comment { text } => seq![TokenView::Comment { text: text@ }],
        Expression::Identifier { name } => seq![TokenView::Identifier { name: name@ }],
        Expression::LiteralNumber { value } => seq![TokenView::IntegerLiteral { value }],
        Expression::LocalFunction { function } => function_tokens(function),
    }
}

/// The tokens of the members of a branch body
pub open spec fn members_tokens(members: Seq<(FragmentIndexInBranchBody, Expression)>) -> Seq<TokenView>
    decreases members,
{
    if members.len() == 0 {
        Seq::empty()
    } else {
        members_tokens(members.subrange(0, members.len() - 1)) + member_tokens(members.last().1)
    }
}

/// The tokens of a branch: `\`, its parameters, `->`, and its body
pub open spec fn branch_tokens(branch: Branch) -> Seq<TokenView>
    decreases branch,
{
    seq![TokenView::BranchStart] + patterns_tokens(branch.parameters@) + seq![
        TokenView::BranchBodyStart,
    ] + members_tokens(branch.body@)
}

/// The tokens of the branches of a function
pub open spec fn branches_tokens(branches: Seq<(BranchIndex, Branch)>) -> Seq<TokenView>
    decreases branches,
{
    if branches.len() == 0 {
        Seq::empty()
    } else {
        branches_tokens(branches.subrange(0, branches.len() - 1)) + branch_tokens(branches.last().1)
    }
}

/// The tokens of a function: `fn`, its branches, and `end`
pub open spec fn function_tokens(function: Function) -> Seq<TokenView>
    decreases function,
{
    seq![TokenView::KeywordFn] + branches_tokens(function.branches@) + seq![TokenView::KeywordEnd]
}

/// The tokens of named functions, each preceded by its name
pub open spec fn named_functions_tokens(functions: Seq<Function>) -> Seq<TokenView>
    decreases functions.len(),
{
    if functions.len() == 0 {
        Seq::empty()
    } else {
        let last = functions.last();
        named_functions_tokens(functions.drop_last()) + seq![
            TokenView::FunctionName { name: last.name->0@ },
        ] + function_tokens(last)
    }
}

/// Whether a function is as the parser builds it: it has a name where it is
/// a named function, none where it is a local one, and its branches, and the
/// members of their bodies, are numbered 1, 2, 3, ...
pub open spec fn function_wf(function: Function, named: bool) -> bool
    decreases function,
{
    &&& (function.name is Some) == named
    &&& branches_wf(function.branches@)
}

/// Whether branches are numbered 1, 2, 3, ..., and each is well-formed
pub open spec fn branches_wf(branches: Seq<(BranchIndex, Branch)>) -> bool
    decreases branches,
{
    if branches.len() == 0 {
        true
    } else {
        &&& branches_wf(branches.subrange(0, branches.len() - 1))
        &&& branches.last().0.0 == branches.len()
        &&& members_wf(branches.last().1.body@)
    }
}

/// Whether members are numbered 1, 2, 3, ..., and each local function is
/// well-formed
pub open spec fn members_wf(members: Seq<(FragmentIndexInBranchBody, Expression)>) -> bool
    decreases members,
{
    if members.len() == 0 {
        true
    } else {
        &&& members_wf(members.subrange(0, members.len() - 1))
        &&& members.last().0.0 == members.len()
        &&& match members.last().1 {
            Expression::LocalFunction { function } => function_wf(function, false),
            _ => true,
        }
    }
}

/// Whether a syntax tree is as the parser builds it
pub open spec fn tree_wf(tree: SyntaxTree) -> bool {
    forall|i: int|
        0 <= i < tree.named_functions@.len() ==> function_wf(#[trigger] tree.named_functions@[i], true)
}

/// The tokens of a syntax tree
pub open spec fn tree_tokens(tree: SyntaxTree) -> Seq<TokenView> {
    named_functions_tokens(tree.named_functions@)
}


/// The location of the member at position `j` of a branch body
pub open spec fn member_location(at: BranchLocation, members: Seq<(FragmentIndexInBranchBody, Expression)>, j: int) -> MemberLocation {
    MemberLocation { parent: Box::new(at), index: members[j].0 }
}

/// All members of a function, each with its location, in the order of the
/// code: a local function's members follow the member that defines it
pub open spec fn function_members(function: Function, at: FunctionLocation) -> Seq<(MemberLocation, Expression)>
    decreases function,
{
    branches_members(function.branches@, at)
}

/// All members of the given branches of a function, with their locations
pub open spec fn branches_members(branches: Seq<(BranchIndex, Branch)>, at: FunctionLocation) -> Seq<(MemberLocation, Expression)>
    decreases branches,
{
    if branches.len() == 0 {
        Seq::empty()
    } else {
        let last = branches.last();
        branches_members(branches.subrange(0, branches.len() - 1), at) + body_members(
            last.1.body@,
            BranchLocation { parent: Box::new(at), index: last.0 },
        )
    }
}

/// All members of a branch body, with their locations, including those of
/// local functions
pub open spec fn body_members(members: Seq<(FragmentIndexInBranchBody, Expression)>, at: BranchLocation) -> Seq<(MemberLocation, Expression)>
    decreases members,
{
    if members.len() == 0 {
        Seq::empty()
    } else {
        let j = members.len() - 1;
        let location = member_location(at, members, j);
        body_members(members.subrange(0, j), at) + seq![(location, members[j].1)] + match members[j].1 {
            Expression::LocalFunction { function } => function_members(
                function,
                FunctionLocation::AnonymousFunction { location: Box::new(location) },
            ),
            _ => Seq::empty(),
        }
    }
}

/// All members of the named functions, from the first function on, with
/// their locations
pub open spec fn named_functions_members(functions: Seq<Function>) -> Seq<(MemberLocation, Expression)>
    decreases functions.len(),
{
    if functions.len() == 0 {
        Seq::empty()
    } else {
        let i = functions.len() - 1;
        named_functions_members(functions.drop_last()) + function_members(
            functions[i],
            FunctionLocation::NamedFunction { index: FunctionIndexInRootContext(i as u32) },
        )
    }
}

/// All members of the syntax tree, with their locations
pub open spec fn tree_members(tree: SyntaxTree) -> Seq<(MemberLocation, Expression)> {
    named_functions_members(tree.named_functions@)
}

/// Whether a named function has the given name
pub open spec fn has_function_named(functions: Seq<Function>, name: Seq<char>) -> bool {
    exists|i: int|
        0 <= i < functions.len() && (#[trigger] functions[i]).name is Some && functions[i].name->0@
            == name
}


/// The members of a function, each with its location, as `function_members`
/// lists them
fn collect_function<'a>(function: &'a Function, at: FunctionLocation, out: &mut Vec<(MemberLocation, &'a Expression)>)
    ensures
        final(out)@.map_values(|m: (MemberLocation, &Expression)| (m.0, *m.1)) == old(out)@.map_values(
            |m: (MemberLocation, &Expression)| (m.0, *m.1),
        ) + function_members(*function, at),
    decreases function,
{
    let ghost start = out@.map_values(|m: (MemberLocation, &Expression)| (m.0, *m.1));
    let mut k: usize = 0;
    while k < function.branches.len()
        invariant
            k <= function.branches@.len(),
            out@.map_values(|m: (MemberLocation, &Expression)| (m.0, *m.1)) == start + branches_members(
                function.branches@.take(k as int),
                at,
            ),
        decreases function.branches@.len() - k,
    {
        let branch = &function.branches[k];
        let branch_at = BranchLocation { parent: Box::new(crate::compiler::location::copy_function(&at)), index: branch.0 };
        proof {
            assert(decreases_to!(*function => function.branches@[k as int].1));
        }
        collect_branch(&branch.1, branch_at, out);
        proof {
            let taken = function.branches@.take(k + 1);
            assert(taken.subrange(0, taken.len() - 1) =~= function.branches@.take(k as int));
        }
        k = k + 1;
        assert(out@.map_values(|m: (MemberLocation, &Expression)| (m.0, *m.1)) =~= start + branches_members(
            function.branches@.take(k as int),
            at,
        ));
    }
    assert(function.branches@.take(k as int) =~= function.branches@);
}

/// The members of a branch body, each with its location, as `body_members`
/// lists them
fn collect_branch<'a>(branch: &'a Branch, at: BranchLocation, out: &mut Vec<(MemberLocation, &'a Expression)>)
    ensures
        final(out)@.map_values(|m: (MemberLocation, &Expression)| (m.0, *m.1)) == old(out)@.map_values(
            |m: (MemberLocation, &Expression)| (m.0, *m.1),
        ) + body_members(branch.body@, at),
    decreases branch,
{
    let ghost start = out@.map_values(|m: (MemberLocation, &Expression)| (m.0, *m.1));
    let mut j: usize = 0;
    while j < branch.body.len()
        invariant
            j <= branch.body@.len(),
            out@.map_values(|m: (MemberLocation, &Expression)| (m.0, *m.1)) == start + body_members(
                branch.body@.take(j as int),
                at,
            ),
        decreases branch.body@.len() - j,
    {
        let member = &branch.body[j];
        let location = MemberLocation { parent: Box::new(crate::compiler::location::copy_branch(&at)), index: member.0 };
        let ghost taken = branch.body@.take(j + 1);
        proof {
            assert(taken.subrange(0, j as int) =~= branch.body@.take(j as int));
            assert(member_location(at, taken, j as int) == location);
        }
        let ghost before = out@.map_values(|m: (MemberLocation, &Expression)| (m.0, *m.1));
        out.push((crate::compiler::location::copy_member(&location), &member.1));
        assert(out@.map_values(|m: (MemberLocation, &Expression)| (m.0, *m.1)) =~= before.push((location, member.1)));
        match &member.1 {
            Expression::LocalFunction { function } => {
                proof {
                    assert(decreases_to!(*branch => branch.body@[j as int].1));
                }
                collect_function(
                    function,
                    FunctionLocation::AnonymousFunction { location: Box::new(location) },
                    out,
                );
            },
            _ => {},
        }
        j = j + 1;
        assert(out@.map_values(|m: (MemberLocation, &Expression)| (m.0, *m.1)) =~= start + body_members(
            branch.body@.take(j as int),
            at,
        ));
    }
    assert(branch.body@.take(j as int) =~= branch.body@);
}

/// The index of the first named function with the given name
pub open spec fn first_function_named(functions: Seq<Function>, name: Seq<char>) -> int {
    choose|i: int|
        0 <= i < functions.len() && functions[i].name is Some && functions[i].name->0@ == name
            && forall|j: int|
            0 <= j < i ==> !(functions[j].name is Some && functions[j].name->0@ == name)
}

impl SyntaxTree {
    /// # All members of the syntax tree, each with its location
    ///
    /// A local function's members follow the member that defines it.
    pub fn members(&self) -> (result: Vec<(MemberLocation, &Expression)>)
        requires
            self.named_functions@.len() <= u32::MAX,
        ensures
            result@.map_values(|m: (MemberLocation, &Expression)| (m.0, *m.1)) == tree_members(*self),
    {
        let mut result: Vec<(MemberLocation, &Expression)> = Vec::new();
        let mut i: usize = 0;
        while i < self.named_functions.len()
            invariant
                i <= self.named_functions@.len(),
                self.named_functions@.len() <= u32::MAX,
                result@.map_values(|m: (MemberLocation, &Expression)| (m.0, *m.1)) == named_functions_members(
                    self.named_functions@.take(i as int),
                ),
            decreases self.named_functions@.len() - i,
        {
            let at = FunctionLocation::NamedFunction { index: FunctionIndexInRootContext(i as u32) };
            collect_function(&self.named_functions[i], at, &mut result);
            proof {
                let taken = self.named_functions@.take(i + 1);
                assert(taken.drop_last() =~= self.named_functions@.take(i as int));
            }
            i = i + 1;
        }
        assert(self.named_functions@.take(i as int) =~= self.named_functions@);
        result
    }

    /// # The index of the first named function with the given name
    ///
    /// Indices in the root context are `u32`, which bounds the number of
    /// named functions.
    pub fn function_by_name(&self, name: &str) -> (result: Option<FunctionIndexInRootContext>)
        requires
            self.named_functions@.len() <= u32::MAX,
        ensures
            match result {
                Some(index) => {
                    &&& index.0 == first_function_named(self.named_functions@, name@)
                    &&& index.0 < self.named_functions@.len()
                    &&& self.named_functions@[index.0 as int].name is Some
                    &&& self.named_functions@[index.0 as int].name->0@ == name@
                    &&& forall|j: int|
                        0 <= j < index.0 ==> !(self.named_functions@[j].name is Some
                            && self.named_functions@[j].name->0@ == name@)
                },
                None => !has_function_named(self.named_functions@, name@),
            },
    {
        let owned = name.to_owned();
        let mut i: usize = 0;
        while i < self.named_functions.len()
            invariant
                i <= self.named_functions@.len(),
                owned@ == name@,
                forall|j: int|
                    0 <= j < i ==> !((#[trigger] self.named_functions@[j]).name is Some
                        && self.named_functions@[j].name->0@ == name@),
                self.named_functions@.len() <= u32::MAX,
            decreases self.named_functions@.len() - i,
        {
            match &self.named_functions[i].name {
                Some(function_name) => {
                    if *function_name == owned {
                        proof {
                            let functions = self.named_functions@;
                            assert(0 <= i < functions.len() && functions[i as int].name is Some
                                && functions[i as int].name->0@ == name@ && forall|j: int|
                                0 <= j < i ==> !(functions[j].name is Some && functions[j].name->0@
                                    == name@));
                            let k = first_function_named(functions, name@);
                            if k < i {
                                assert(!(functions[k].name is Some && functions[k].name->0@ == name@));
                            } else if k > i {
                                assert(!(functions[i as int].name is Some && functions[i as int].name->0@
                                    == name@));
                            }
                        }
                        return Some(FunctionIndexInRootContext(i as u32));
                    }
                },
                None => {},
            }
            i = i + 1;
        }
        None
    }
}

impl Function {
    /// # Add a branch, with the index after the largest of the branches
    ///
    /// The first branch gets the index 1.
    pub fn add_branch(&mut self, branch: Branch)
        requires
            largest_index(branch_indices(old(self).branches@)) < u32::MAX,
        ensures
            final(self).name == old(self).name,
            final(self).branches@ == old(self).branches@.push(
                (BranchIndex((largest_index(branch_indices(old(self).branches@)) + 1) as u32), branch),
            ),
            forall|i: int|
                0 <= i < old(self).branches@.len() ==> (#[trigger] old(self).branches@[i]).0.0
                    < final(self).branches@.last().0.0,
    {
        let ghost indices = branch_indices(self.branches@);
        let mut largest: u32 = 0;
        let mut i: usize = 0;
        while i < self.branches.len()
            invariant
                i <= self.branches@.len(),
                indices == branch_indices(self.branches@),
                largest == largest_index(indices.take(i as int)),
            decreases self.branches@.len() - i,
        {
            proof {
                assert(indices.take(i + 1).drop_last() =~= indices.take(i as int));
            }
            if self.branches[i].0.0 > largest {
                largest = self.branches[i].0.0;
            }
            i = i + 1;
        }
        assert(indices.take(i as int) =~= indices);
        proof {
            lemma_largest_index_bounds(indices);
            assert forall|j: int| 0 <= j < self.branches@.len() implies (#[trigger] self.branches@[j]).0.0
                <= largest by {
                assert(indices[j] == self.branches@[j].0.0);
            }
        }
        self.branches.push((BranchIndex(largest + 1), branch));
    }
}

impl Branch {
    /// # Add a fragment, with the index after the largest of the fragments
    ///
    /// The first fragment gets the index 1.
    pub fn add_fragment(&mut self, fragment: Expression)
        requires
            largest_index(fragment_indices(old(self).body@)) < u32::MAX,
        ensures
            final(self).parameters == old(self).parameters,
            final(self).body@ == old(self).body@.push(
                (
                    FragmentIndexInBranchBody((largest_index(fragment_indices(old(self).body@)) + 1) as u32),
                    fragment,
                ),
            ),
            forall|i: int|
                0 <= i < old(self).body@.len() ==> (#[trigger] old(self).body@[i]).0.0
                    < final(self).body@.last().0.0,
    {
        let ghost indices = fragment_indices(self.body@);
        let mut largest: u32 = 0;
        let mut i: usize = 0;
        while i < self.body.len()
            invariant
                i <= self.body@.len(),
                indices == fragment_indices(self.body@),
                largest == largest_index(indices.take(i as int)),
            decreases self.body@.len() - i,
        {
            proof {
                assert(indices.take(i + 1).drop_last() =~= indices.take(i as int));
            }
            if self.body[i].0.0 > largest {
                largest = self.body[i].0.0;
            }
            i = i + 1;
        }
        assert(indices.take(i as int) =~= indices);
        proof {
            lemma_largest_index_bounds(indices);
            assert forall|j: int| 0 <= j < self.body@.len() implies (#[trigger] self.body@[j]).0.0
                <= largest by {
                assert(indices[j] == self.body@[j].0.0);
            }
        }
        self.body.push((FragmentIndexInBranchBody(largest + 1), fragment));
    }
}

/// The largest of the indices, `0` where there are none
pub open spec fn largest_index(indices: Seq<u32>) -> u32
    decreases indices.len(),
{
    if indices.len() == 0 {
        0
    } else {
        let rest = largest_index(indices.drop_last());
        if indices.last() > rest {
            indices.last()
        } else {
            rest
        }
    }
}

/// The indices of the branches, in their order
pub open spec fn branch_indices(branches: Seq<(BranchIndex, Branch)>) -> Seq<u32> {
    branches.map_values(|b: (BranchIndex, Branch)| b.0.0)
}

/// The indices of the members of a body, in their order
pub open spec fn fragment_indices(body: Seq<(FragmentIndexInBranchBody, Expression)>) -> Seq<u32> {
    body.map_values(|m: (FragmentIndexInBranchBody, Expression)| m.0.0)
}

/// No index is larger than the largest
proof fn lemma_largest_index_bounds(indices: Seq<u32>)
    ensures
        forall|i: int| 0 <= i < indices.len() ==> #[trigger] indices[i] <= largest_index(indices),
    decreases indices.len(),
{
    if indices.len() > 0 {
        let rest = indices.drop_last();
        lemma_largest_index_bounds(rest);
        assert forall|i: int| 0 <= i < indices.len() implies #[trigger] indices[i] <= largest_index(indices) by {
            if i < rest.len() {
                assert(rest[i] == indices[i]);
            }
        }
    }
}

/// Where the indices are 1, 2, 3, ..., the largest is their number
pub proof fn lemma_largest_of_numbered(indices: Seq<u32>)
    requires
        forall|i: int| 0 <= i < indices.len() ==> indices[i] == i + 1,
    ensures
        largest_index(indices) == indices.len(),
    decreases indices.len(),
{
    if indices.len() > 0 {
        let rest = indices.drop_last();
        assert forall|i: int| 0 <= i < rest.len() implies rest[i] == i + 1 by {
            assert(rest[i] == indices[i]);
        }
        lemma_largest_of_numbered(rest);
    }
}

/// Whether two members of branch bodies are the same, up to the identity of
/// the strings they hold
pub open spec fn same_member(a: Expression, b: Expression) -> bool
    decreases a,
{
    match (a, b) {
        (Expression::Comment { text: x }, Expression::Comment { text: y }) => x@ == y@,
        (Expression::Identifier { name: x }, Expression::Identifier { name: y }) => x@ == y@,
        (Expression::LiteralNumber { value: x }, Expression::LiteralNumber { value: y }) => x == y,
        (Expression::LocalFunction { function: f }, Expression::LocalFunction { function: g }) =>
            same_function(f, g),
        _ => false,
    }
}

/// Whether two bodies have the same members, with the same indices
pub open spec fn same_members(
    a: Seq<(FragmentIndexInBranchBody, Expression)>,
    b: Seq<(FragmentIndexInBranchBody, Expression)>,
) -> bool
    decreases a,
{
    if a.len() == 0 {
        b.len() == 0
    } else {
        &&& b.len() == a.len()
        &&& same_members(a.subrange(0, a.len() - 1), b.subrange(0, b.len() - 1))
        &&& a.last().0 == b.last().0
        &&& same_member(a.last().1, b.last().1)
    }
}

/// Whether two branches are the same
pub open spec fn same_branch(a: Branch, b: Branch) -> bool
    decreases a,
{
    &&& patterns_tokens(a.parameters@) == patterns_tokens(b.parameters@)
    &&& same_members(a.body@, b.body@)
}

/// Whether two functions have the same branches, with the same indices
pub open spec fn same_branches(a: Seq<(BranchIndex, Branch)>, b: Seq<(BranchIndex, Branch)>) -> bool
    decreases a,
{
    if a.len() == 0 {
        b.len() == 0
    } else {
        &&& b.len() == a.len()
        &&& same_branches(a.subrange(0, a.len() - 1), b.subrange(0, b.len() - 1))
        &&& a.last().0 == b.last().0
        &&& same_branch(a.last().1, b.last().1)
    }
}

/// Whether two functions are the same
pub open spec fn same_function(a: Function, b: Function) -> bool
    decreases a,
{
    &&& (a.name is Some) == (b.name is Some)
    &&& (a.name is Some ==> a.name->0@ == b.name->0@)
    &&& same_branches(a.branches@, b.branches@)
}

/// Whether two sequences of named functions are the same
pub open spec fn same_functions(a: Seq<Function>, b: Seq<Function>) -> bool
    decreases a.len(),
{
    if a.len() == 0 {
        b.len() == 0
    } else {
        &&& b.len() == a.len()
        &&& same_functions(a.drop_last(), b.drop_last())
        &&& same_function(a.last(), b.last())
    }
}

/// A well-formed syntax tree with the given tokens, where there is one
pub open spec fn tree_of(tokens: Seq<TokenView>) -> SyntaxTree {
    choose|tree: SyntaxTree| #[trigger] tree_tokens(tree) == tokens && tree_wf(tree)
}

/// Whether the tokens are those of some well-formed syntax tree
pub open spec fn parses(tokens: Seq<TokenView>) -> bool {
    exists|tree: SyntaxTree| #[trigger] tree_tokens(tree) == tokens && tree_wf(tree)
}

/// The tokens of two runs of members, one after the other, are the tokens of
/// the first run followed by those of the second
pub proof fn lemma_members_tokens_concat(
    a: Seq<(FragmentIndexInBranchBody, Expression)>,
    b: Seq<(FragmentIndexInBranchBody, Expression)>,
)
    ensures
        members_tokens(a + b) == members_tokens(a) + members_tokens(b),
    decreases b.len(),
{
    if b.len() == 0 {
        assert(a + b =~= a);
        assert(members_tokens(a) + members_tokens(b) =~= members_tokens(a));
    } else {
        let shorter = b.subrange(0, b.len() - 1);
        lemma_members_tokens_concat(a, shorter);
        assert((a + b).subrange(0, (a + b).len() - 1) =~= a + shorter);
        assert(members_tokens(a) + members_tokens(b) =~= members_tokens(a) + members_tokens(shorter)
            + member_tokens(b.last().1));
    }
}

/// The tokens of the members from position `j` on are those of the member
/// at `j`, followed by those of the members after it
pub proof fn lemma_members_tokens_at(members: Seq<(FragmentIndexInBranchBody, Expression)>, j: int)
    requires
        0 <= j < members.len(),
    ensures
        members_tokens(members.skip(j)) == member_tokens(members[j].1) + members_tokens(
            members.skip(j + 1),
        ),
{
    let one = seq![members[j]];
    assert(members.skip(j) =~= one + members.skip(j + 1));
    lemma_members_tokens_concat(one, members.skip(j + 1));
    assert(one.subrange(0, 0) =~= Seq::<(FragmentIndexInBranchBody, Expression)>::empty());
    assert(members_tokens(one.subrange(0, 0)) =~= Seq::<TokenView>::empty());
    assert(members_tokens(one) =~= member_tokens(members[j].1));
}

/// The tokens of two runs of branches, one after the other, are the tokens
/// of the first run followed by those of the second
pub proof fn lemma_branches_tokens_concat(a: Seq<(BranchIndex, Branch)>, b: Seq<(BranchIndex, Branch)>)
    ensures
        branches_tokens(a + b) == branches_tokens(a) + branches_tokens(b),
    decreases b.len(),
{
    if b.len() == 0 {
        assert(a + b =~= a);
        assert(branches_tokens(a) + branches_tokens(b) =~= branches_tokens(a));
    } else {
        let shorter = b.subrange(0, b.len() - 1);
        lemma_branches_tokens_concat(a, shorter);
        assert((a + b).subrange(0, (a + b).len() - 1) =~= a + shorter);
        assert(branches_tokens(a) + branches_tokens(b) =~= branches_tokens(a) + branches_tokens(
            shorter,
        ) + branch_tokens(b.last().1));
    }
}

/// The tokens of the branches from position `k` on are those of the branch
/// at `k`, followed by those of the branches after it
pub proof fn lemma_branches_tokens_at(branches: Seq<(BranchIndex, Branch)>, k: int)
    requires
        0 <= k < branches.len(),
    ensures
        branches_tokens(branches.skip(k)) == branch_tokens(branches[k].1) + branches_tokens(
            branches.skip(k + 1),
        ),
{
    let one = seq![branches[k]];
    assert(branches.skip(k) =~= one + branches.skip(k + 1));
    lemma_branches_tokens_concat(one, branches.skip(k + 1));
    assert(one.subrange(0, 0) =~= Seq::<(BranchIndex, Branch)>::empty());
    assert(branches_tokens(one.subrange(0, 0)) =~= Seq::<TokenView>::empty());
    assert(branches_tokens(one) =~= branch_tokens(branches[k].1));
}

/// The tokens of two runs of named functions, one after the other, are the
/// tokens of the first run followed by those of the second
pub proof fn lemma_named_functions_tokens_concat(a: Seq<Function>, b: Seq<Function>)
    ensures
        named_functions_tokens(a + b) == named_functions_tokens(a) + named_functions_tokens(b),
    decreases b.len(),
{
    if b.len() == 0 {
        assert(a + b =~= a);
        assert(named_functions_tokens(a) + named_functions_tokens(b) =~= named_functions_tokens(a));
    } else {
        let shorter = b.drop_last();
        lemma_named_functions_tokens_concat(a, shorter);
        assert((a + b).drop_last() =~= a + shorter);
        assert(named_functions_tokens(a) + named_functions_tokens(b) =~= named_functions_tokens(a)
            + named_functions_tokens(shorter) + seq![
            TokenView::FunctionName { name: b.last().name->0@ },
        ] + function_tokens(b.last()));
    }
}

/// The tokens of the named functions from position `k` on are the name and
/// the tokens of the function at `k`, followed by those of the functions
/// after it
pub proof fn lemma_named_functions_tokens_at(functions: Seq<Function>, k: int)
    requires
        0 <= k < functions.len(),
    ensures
        named_functions_tokens(functions.skip(k)) == seq![
            TokenView::FunctionName { name: functions[k].name->0@ },
        ] + function_tokens(functions[k]) + named_functions_tokens(functions.skip(k + 1)),
{
    let one = seq![functions[k]];
    assert(functions.skip(k) =~= one + functions.skip(k + 1));
    lemma_named_functions_tokens_concat(one, functions.skip(k + 1));
    assert(one.drop_last() =~= Seq::<Function>::empty());
    assert(named_functions_tokens(one.drop_last()) =~= Seq::<TokenView>::empty());
    assert(named_functions_tokens(one) =~= seq![
        TokenView::FunctionName { name: functions[k].name->0@ },
    ] + function_tokens(functions[k]));
}

/// In well-formed members, the member at position `j` has the index `j + 1`,
/// and each local function is well-formed
pub proof fn lemma_members_wf_at(members: Seq<(FragmentIndexInBranchBody, Expression)>, j: int)
    requires
        members_wf(members),
        0 <= j < members.len(),
    ensures
        members[j].0.0 == j + 1,
        members.len() <= u32::MAX,
        members[j].1 matches Expression::LocalFunction { function } ==> function_wf(function, false),
    decreases members.len(),
{
    if j < members.len() - 1 {
        let shorter = members.subrange(0, members.len() - 1);
        lemma_members_wf_at(shorter, j);
        assert(shorter[j] == members[j]);
    }
}

/// In well-formed branches, the branch at position `k` has the index `k + 1`,
/// and its members are well-formed
pub proof fn lemma_branches_wf_at(branches: Seq<(BranchIndex, Branch)>, k: int)
    requires
        branches_wf(branches),
        0 <= k < branches.len(),
    ensures
        branches[k].0.0 == k + 1,
        branches.len() <= u32::MAX,
        members_wf(branches[k].1.body@),
    decreases branches.len(),
{
    if k < branches.len() - 1 {
        let shorter = branches.subrange(0, branches.len() - 1);
        lemma_branches_wf_at(shorter, k);
        assert(shorter[k] == branches[k]);
    }
}

/// The branch with the given index, the first where several have it
pub open spec fn branch_with_index(branches: Seq<(BranchIndex, Branch)>, index: BranchIndex) -> Option<Branch>
    decreases branches.len(),
{
    if branches.len() == 0 {
        None
    } else if branches[0].0 == index {
        Some(branches[0].1)
    } else {
        branch_with_index(branches.drop_first(), index)
    }
}

/// The member with the given index, the first where several have it
pub open spec fn member_with_index(
    members: Seq<(FragmentIndexInBranchBody, Expression)>,
    index: FragmentIndexInBranchBody,
) -> Option<Expression>
    decreases members.len(),
{
    if members.len() == 0 {
        None
    } else if members[0].0 == index {
        Some(members[0].1)
    } else {
        member_with_index(members.drop_first(), index)
    }
}

/// The function at a location: a named function by its index, or a local
/// function by the member of its parent's branch that defines it
pub open spec fn function_at(tree: SyntaxTree, location: FunctionLocation) -> Option<Function>
    decreases location,
{
    match location {
        FunctionLocation::NamedFunction { index } => if index.0 < tree.named_functions@.len() {
            Some(tree.named_functions@[index.0 as int])
        } else {
            None
        },
        FunctionLocation::AnonymousFunction { location } => match function_at(
            tree,
            *location.parent.parent,
        ) {
            Some(parent) => match branch_with_index(parent.branches@, location.parent.index) {
                Some(branch) => match member_with_index(branch.body@, location.index) {
                    Some(Expression::LocalFunction { function }) => Some(function),
                    _ => None,
                },
                None => None,
            },
            None => None,
        },
    }
}

/// The branch with the given index
fn find_branch(branches: &Vec<(BranchIndex, Branch)>, index: BranchIndex) -> (result: Option<&Branch>)
    ensures
        match result {
            Some(branch) => branch_with_index(branches@, index) == Some(*branch),
            None => branch_with_index(branches@, index) is None,
        },
{
    let mut i: usize = 0;
    assert(branches@.skip(0) =~= branches@);
    while i < branches.len()
        invariant
            i <= branches@.len(),
            branch_with_index(branches@.skip(i as int), index) == branch_with_index(branches@, index),
        decreases branches@.len() - i,
    {
        assert(branches@.skip(i as int)[0] == branches@[i as int]);
        if branches[i].0.0 == index.0 {
            return Some(&branches[i].1);
        }
        assert(branches@.skip(i as int).drop_first() =~= branches@.skip(i + 1));
        i = i + 1;
    }
    assert(branches@.skip(i as int).len() == 0);
    None
}

/// The member with the given index
fn find_member(members: &Vec<(FragmentIndexInBranchBody, Expression)>, index: FragmentIndexInBranchBody) -> (result: Option<&Expression>)
    ensures
        match result {
            Some(member) => member_with_index(members@, index) == Some(*member),
            None => member_with_index(members@, index) is None,
        },
{
    let mut i: usize = 0;
    assert(members@.skip(0) =~= members@);
    while i < members.len()
        invariant
            i <= members@.len(),
            member_with_index(members@.skip(i as int), index) == member_with_index(members@, index),
        decreases members@.len() - i,
    {
        assert(members@.skip(i as int)[0] == members@[i as int]);
        if members[i].0.0 == index.0 {
            return Some(&members[i].1);
        }
        assert(members@.skip(i as int).drop_first() =~= members@.skip(i + 1));
        i = i + 1;
    }
    assert(members@.skip(i as int).len() == 0);
    None
}

impl SyntaxTree {
    /// # The function at a location, if there is one there
    pub fn function_by_location(&self, location: &FunctionLocation) -> (result: Option<&Function>)
        ensures
            match result {
                Some(function) => function_at(*self, *location) == Some(*function),
                None => function_at(*self, *location) is None,
            },
        decreases location,
    {
        match location {
            FunctionLocation::NamedFunction { index } => {
                if (index.0 as usize) < self.named_functions.len() {
                    Some(&self.named_functions[index.0 as usize])
                } else {
                    None
                }
            },
            FunctionLocation::AnonymousFunction { location } => {
                let parent = match self.function_by_location(&location.parent.parent) {
                    Some(parent) => parent,
                    None => return None,
                };
                let branch = match find_branch(&parent.branches, location.parent.index) {
                    Some(branch) => branch,
                    None => return None,
                };
                match find_member(&branch.body, location.index) {
                    Some(Expression::LocalFunction { function }) => Some(function),
                    _ => None,
                }
            },
        }
    }
}

} // verus!
