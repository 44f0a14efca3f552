//! Resolving which identifiers are calls of which functions.

use vstd::prelude::*;

use crate::compiler::host::{first_named, Host, HostFunction};
use crate::compiler::intrinsics::{intrinsic_named, IntrinsicFunction};
use crate::compiler::location::{copy_branch, copy_function, copy_member, BranchLocation, FunctionLocation, FunctionIndexInRootContext, MemberLocation};
use crate::compiler::syntax::{
    body_members, branches_members, function_members, has_function_named, member_location,
    named_functions_members, tree_members, Branch, Expression, Function, SyntaxTree,
};
use crate::compiler::table::Table;

verus! {

/// The function calls that were resolved
pub struct CallsView {
    pub host: Map<MemberLocation, HostFunction>,
    pub intrinsic: Map<MemberLocation, IntrinsicFunction>,
    pub user_defined: Set<MemberLocation>,
}

/// The calls, after resolving a member of a branch body
///
/// An identifier may name functions of several kinds at once. It is then
/// resolved as a call of each; later compiler passes sort that out.
pub open spec fn resolve_member(
    calls: CallsView,
    member: (MemberLocation, Expression),
    host: Seq<HostFunction>,
    named: Seq<Function>,
) -> CallsView {
    match member.1 {
        Expression::Identifier { name } => CallsView {
            host: match first_named(host, name@) {
                Some(function) => calls.host.insert(member.0, function),
                None => calls.host,
            },
            intrinsic: match intrinsic_named(name@) {
                Some(function) => calls.intrinsic.insert(member.0, function),
                None => calls.intrinsic,
            },
            user_defined: if has_function_named(named, name@) {
                calls.user_defined.insert(member.0)
            } else {
                calls.user_defined
            },
        },
        _ => calls,
    }
}

/// The calls, after resolving the members, one after the other
pub open spec fn resolve_members(
    calls: CallsView,
    members: Seq<(MemberLocation, Expression)>,
    host: Seq<HostFunction>,
    named: Seq<Function>,
) -> CallsView
    decreases members.len(),
{
    if members.len() == 0 {
        calls
    } else {
        resolve_member(resolve_members(calls, members.drop_last(), host, named), members.last(), host, named)
    }
}

/// Resolving two runs of members is resolving the first, then the second
pub proof fn lemma_resolve_members_concat(
    calls: CallsView,
    a: Seq<(MemberLocation, Expression)>,
    b: Seq<(MemberLocation, Expression)>,
    host: Seq<HostFunction>,
    named: Seq<Function>,
)
    ensures
        resolve_members(calls, a + b, host, named) == resolve_members(
            resolve_members(calls, a, host, named),
            b,
            host,
            named,
        ),
    decreases b.len(),
{
    if b.len() == 0 {
        assert(a + b =~= a);
    } else {
        assert((a + b).drop_last() =~= a + b.drop_last());
        lemma_resolve_members_concat(calls, a, b.drop_last(), host, named);
    }
}

/// Resolving a single member
pub proof fn lemma_resolve_one(
    calls: CallsView,
    member: (MemberLocation, Expression),
    host: Seq<HostFunction>,
    named: Seq<Function>,
)
    ensures
        resolve_members(calls, seq![member], host, named) == resolve_member(calls, member, host, named),
{
    let one = seq![member];
    assert(one.drop_last() =~= Seq::<(MemberLocation, Expression)>::empty());
    assert(one.last() == member);
    assert(resolve_members(calls, one.drop_last(), host, named) == calls);
}

/// The host function that a member calls by its name, if it is an
/// identifier
pub open spec fn host_call_of(member: (MemberLocation, Expression), host: Seq<HostFunction>) -> Option<HostFunction> {
    match member.1 {
        Expression::Identifier { name } => first_named(host, name@),
        _ => None,
    }
}

/// The intrinsic function that a member calls by its name, if it is an
/// identifier
pub open spec fn intrinsic_call_of(member: (MemberLocation, Expression)) -> Option<IntrinsicFunction> {
    match member.1 {
        Expression::Identifier { name } => intrinsic_named(name@),
        _ => None,
    }
}

/// Whether a member is an identifier that names a user-defined function
pub open spec fn calls_user_function(member: (MemberLocation, Expression), named: Seq<Function>) -> bool {
    match member.1 {
        Expression::Identifier { name } => has_function_named(named, name@),
        _ => false,
    }
}

/// The locations at which some member satisfies a condition
pub open spec fn locations_where(
    members: Seq<(MemberLocation, Expression)>,
    condition: spec_fn((MemberLocation, Expression)) -> bool,
) -> Set<MemberLocation> {
    Set::new(|location: MemberLocation| exists|j: int| 0 <= j < members.len() && members[j].0 == location && condition(#[trigger] members[j]))
}

/// Resolving the calls of members finds calls exactly at the locations of
/// the identifiers that name a function of each kind: a user-defined one, a
/// host function, an intrinsic function
pub proof fn law_calls_are_found_by_name(
    members: Seq<(MemberLocation, Expression)>,
    host: Seq<HostFunction>,
    named: Seq<Function>,
)
    ensures
        ({
            let calls = resolve_members(no_calls(), members, host, named);
            &&& calls.user_defined == locations_where(
                members,
                |m: (MemberLocation, Expression)| calls_user_function(m, named),
            )
            &&& calls.host.dom() == locations_where(
                members,
                |m: (MemberLocation, Expression)| host_call_of(m, host) is Some,
            )
            &&& calls.intrinsic.dom() == locations_where(
                members,
                |m: (MemberLocation, Expression)| intrinsic_call_of(m) is Some,
            )
        }),
    decreases members.len(),
{
    let calls = resolve_members(no_calls(), members, host, named);
    let user = |m: (MemberLocation, Expression)| calls_user_function(m, named);
    let to_host = |m: (MemberLocation, Expression)| host_call_of(m, host) is Some;
    let to_intrinsic = |m: (MemberLocation, Expression)| intrinsic_call_of(m) is Some;
    if members.len() == 0 {
        assert(calls.user_defined =~= locations_where(members, user));
        assert(calls.host.dom() =~= locations_where(members, to_host));
        assert(calls.intrinsic.dom() =~= locations_where(members, to_intrinsic));
    } else {
        let rest = members.drop_last();
        let n = members.len() - 1;
        let last = members[n];
        law_calls_are_found_by_name(rest, host, named);
        let prev = resolve_members(no_calls(), rest, host, named);
        assert(calls == resolve_member(prev, last, host, named));
        assert forall|j: int| 0 <= j < n implies members[j] == rest[j] by {}
        assert forall|l: MemberLocation| calls.user_defined.contains(l) == locations_where(members, user).contains(l) by {
            if locations_where(members, user).contains(l) {
                let j = choose|j: int| 0 <= j < members.len() && members[j].0 == l && user(#[trigger] members[j]);
                if j < n {
                    assert(locations_where(rest, user).contains(l));
                }
            }
            if locations_where(rest, user).contains(l) {
                let j = choose|j: int| 0 <= j < rest.len() && rest[j].0 == l && user(#[trigger] rest[j]);
                assert(members[j] == rest[j]);
            }
        }
        assert forall|l: MemberLocation| calls.host.dom().contains(l) == locations_where(members, to_host).contains(l) by {
            if locations_where(members, to_host).contains(l) {
                let j = choose|j: int| 0 <= j < members.len() && members[j].0 == l && to_host(#[trigger] members[j]);
                if j < n {
                    assert(locations_where(rest, to_host).contains(l));
                }
            }
            if locations_where(rest, to_host).contains(l) {
                let j = choose|j: int| 0 <= j < rest.len() && rest[j].0 == l && to_host(#[trigger] rest[j]);
                assert(members[j] == rest[j]);
            }
        }
        assert forall|l: MemberLocation|
            calls.intrinsic.dom().contains(l) == locations_where(members, to_intrinsic).contains(l) by {
            if locations_where(members, to_intrinsic).contains(l) {
                let j = choose|j: int|
                    0 <= j < members.len() && members[j].0 == l && to_intrinsic(#[trigger] members[j]);
                if j < n {
                    assert(locations_where(rest, to_intrinsic).contains(l));
                }
            }
            if locations_where(rest, to_intrinsic).contains(l) {
                let j = choose|j: int| 0 <= j < rest.len() && rest[j].0 == l && to_intrinsic(#[trigger] rest[j]);
                assert(members[j] == rest[j]);
            }
        }
        assert(calls.user_defined =~= locations_where(members, user));
        assert(calls.host.dom() =~= locations_where(members, to_host));
        assert(calls.intrinsic.dom() =~= locations_where(members, to_intrinsic));
    }
}

/// Resolving the calls of members gives each location the host function and
/// the intrinsic function that the last identifier there, that names one of
/// that kind, names. (In a syntax tree each location holds one member.)
pub proof fn law_calls_resolve_by_name(
    members: Seq<(MemberLocation, Expression)>,
    host: Seq<HostFunction>,
    named: Seq<Function>,
)
    ensures
        ({
            let calls = resolve_members(no_calls(), members, host, named);
            &&& forall|j: int|
                #![trigger members[j]]
                0 <= j < members.len() && host_call_of(members[j], host) is Some && (forall|k: int|
                    j < k < members.len() && members[k].0 == members[j].0 ==> host_call_of(
                        #[trigger] members[k],
                        host,
                    ) is None) ==> calls.host[members[j].0] == host_call_of(members[j], host)->0
            &&& forall|j: int|
                #![trigger members[j]]
                0 <= j < members.len() && intrinsic_call_of(members[j]) is Some && (forall|k: int|
                    j < k < members.len() && members[k].0 == members[j].0 ==> intrinsic_call_of(
                        #[trigger] members[k],
                    ) is None) ==> calls.intrinsic[members[j].0] == intrinsic_call_of(members[j])->0
        }),
    decreases members.len(),
{
    if members.len() > 0 {
        let rest = members.drop_last();
        let n = members.len() - 1;
        let last = members[n];
        law_calls_resolve_by_name(rest, host, named);
        let prev = resolve_members(no_calls(), rest, host, named);
        let calls = resolve_members(no_calls(), members, host, named);
        assert(calls == resolve_member(prev, last, host, named));
        assert forall|j: int|
            #![trigger members[j]]
            0 <= j < members.len() && host_call_of(members[j], host) is Some && (forall|k: int|
                j < k < members.len() && members[k].0 == members[j].0 ==> host_call_of(
                    #[trigger] members[k],
                    host,
                ) is None) implies calls.host[members[j].0] == host_call_of(members[j], host)->0 by {
            if j < n {
                assert(members[j] == rest[j]);
                assert forall|k: int| j < k < rest.len() && rest[k].0 == rest[j].0 implies host_call_of(
                    #[trigger] rest[k],
                    host,
                ) is None by {
                    assert(rest[k] == members[k]);
                }
                if last.0 == members[j].0 {
                    assert(host_call_of(members[n], host) is None);
                }
            }
        }
        assert forall|j: int|
            #![trigger members[j]]
            0 <= j < members.len() && intrinsic_call_of(members[j]) is Some && (forall|k: int|
                j < k < members.len() && members[k].0 == members[j].0 ==> intrinsic_call_of(
                    #[trigger] members[k],
                ) is None) implies calls.intrinsic[members[j].0] == intrinsic_call_of(members[j])->0 by {
            if j < n {
                assert(members[j] == rest[j]);
                assert forall|k: int| j < k < rest.len() && rest[k].0 == rest[j].0 implies intrinsic_call_of(
                    #[trigger] rest[k],
                ) is None by {
                    assert(rest[k] == members[k]);
                }
                if last.0 == members[j].0 {
                    assert(intrinsic_call_of(members[n]) is None);
                }
            }
        }
    }
}

/// No calls
pub open spec fn no_calls() -> CallsView {
    CallsView { host: Map::empty(), intrinsic: Map::empty(), user_defined: Set::empty() }
}

/// # Tracks function calls
#[derive(Debug)]
pub struct FunctionCalls {
    to_host_functions: Table<MemberLocation, HostFunction>,
    to_intrinsic_functions: Table<MemberLocation, IntrinsicFunction>,
    to_user_defined_functions: Table<MemberLocation, ()>,
}

impl FunctionCalls {
    /// The calls
    pub closed spec fn view(&self) -> CallsView {
        CallsView {
            host: self.to_host_functions.view(),
            intrinsic: self.to_intrinsic_functions.view(),
            user_defined: self.to_user_defined_functions.view().dom(),
        }
    }

    /// # Resolve all function calls
    pub fn resolve<H: Host>(syntax_tree: &SyntaxTree, host: &H) -> (result: Self)
        requires
            syntax_tree.named_functions@.len() <= u32::MAX,
        ensures
            result.view() == resolve_members(
                no_calls(),
                tree_members(*syntax_tree),
                host.function_list(),
                syntax_tree.named_functions@,
            ),
    {
        let mut calls = FunctionCalls {
            to_host_functions: Table::new(),
            to_intrinsic_functions: Table::new(),
            to_user_defined_functions: Table::new(),
        };
        assert(calls.view().user_defined =~= Set::<MemberLocation>::empty());
        let functions = &syntax_tree.named_functions;
        let mut i: usize = 0;
        while i < functions.len()
            invariant
                i <= functions@.len(),
                functions@ == syntax_tree.named_functions@,
                functions@.len() <= u32::MAX,
                calls.view() == resolve_members(
                    no_calls(),
                    named_functions_members(functions@.take(i as int)),
                    host.function_list(),
                    functions@,
                ),
            decreases functions@.len() - i,
        {
            let ghost before = calls.view();
            let at = FunctionLocation::NamedFunction { index: FunctionIndexInRootContext(i as u32) };
            calls.resolve_function(&functions[i], at, syntax_tree, host);
            proof {
                let taken = functions@.take(i + 1);
                assert(taken.drop_last() =~= functions@.take(i as int));
                lemma_resolve_members_concat(
                    no_calls(),
                    named_functions_members(functions@.take(i as int)),
                    function_members(functions@[i as int], at),
                    host.function_list(),
                    functions@,
                );
            }
            i = i + 1;
        }
        assert(functions@.take(i as int) =~= functions@);
        calls
    }

    fn resolve_function<H: Host>(
        &mut self,
        function: &Function,
        at: FunctionLocation,
        syntax_tree: &SyntaxTree,
        host: &H,
    )
        requires
            syntax_tree.named_functions@.len() <= u32::MAX,
        ensures
            final(self).view() == resolve_members(
                old(self).view(),
                function_members(*function, at),
                host.function_list(),
                syntax_tree.named_functions@,
            ),
        decreases function,
    {
        let mut k: usize = 0;
        while k < function.branches.len()
            invariant
                k <= function.branches@.len(),
                syntax_tree.named_functions@.len() <= u32::MAX,
                self.view() == resolve_members(
                    old(self).view(),
                    branches_members(function.branches@.take(k as int), at),
                    host.function_list(),
                    syntax_tree.named_functions@,
                ),
            decreases function.branches@.len() - k,
        {
            let branch = &function.branches[k];
            let branch_at = BranchLocation { parent: Box::new(copy_function(&at)), index: branch.0 };
            proof {
                assert(decreases_to!(*function => function.branches@[k as int].1));
            }
            self.resolve_branch(&branch.1, branch_at, syntax_tree, host);
            proof {
                let taken = function.branches@.take(k + 1);
                assert(taken.subrange(0, taken.len() - 1) =~= function.branches@.take(k as int));
                lemma_resolve_members_concat(
                    old(self).view(),
                    branches_members(function.branches@.take(k as int), at),
                    body_members(branch.1.body@, branch_at),
                    host.function_list(),
                    syntax_tree.named_functions@,
                );
            }
            k = k + 1;
        }
        assert(function.branches@.take(k as int) =~= function.branches@);
    }

    fn resolve_branch<H: Host>(
        &mut self,
        branch: &Branch,
        at: BranchLocation,
        syntax_tree: &SyntaxTree,
        host: &H,
    )
        requires
            syntax_tree.named_functions@.len() <= u32::MAX,
        ensures
            final(self).view() == resolve_members(
                old(self).view(),
                body_members(branch.body@, at),
                host.function_list(),
                syntax_tree.named_functions@,
            ),
        decreases branch,
    {
        let mut j: usize = 0;
        while j < branch.body.len()
            invariant
                j <= branch.body@.len(),
                syntax_tree.named_functions@.len() <= u32::MAX,
                self.view() == resolve_members(
                    old(self).view(),
                    body_members(branch.body@.take(j as int), at),
                    host.function_list(),
                    syntax_tree.named_functions@,
                ),
            decreases branch.body@.len() - j,
        {
            let member = &branch.body[j];
            let location = MemberLocation { parent: Box::new(copy_branch(&at)), index: member.0 };
            let ghost before = self.view();
            let ghost taken = branch.body@.take(j + 1);
            proof {
                assert(taken.subrange(0, j as int) =~= branch.body@.take(j as int));
                assert(member_location(at, taken, j as int) == location);
            }
            match &member.1 {
                Expression::Identifier { name } => {
                    let ghost expected = resolve_member(
                        before,
                        (location, member.1),
                        host.function_list(),
                        syntax_tree.named_functions@,
                    );
                    if let Some(function) = host.function_by_name(name.as_str()) {
                        self.to_host_functions.insert(copy_member(&location), function);
                    }
                    assert(self.view().host == expected.host);
                    if let Some(function) = IntrinsicFunction::from_name(name.as_str()) {
                        self.to_intrinsic_functions.insert(copy_member(&location), function);
                    }
                    assert(self.view().intrinsic == expected.intrinsic);
                    match syntax_tree.function_by_name(name.as_str()) {
                        Some(index) => {
                            assert(has_function_named(syntax_tree.named_functions@, name@)) by {
                                let k = index.0 as int;
                                assert(0 <= k < syntax_tree.named_functions@.len()
                                    && syntax_tree.named_functions@[k].name is Some
                                    && syntax_tree.named_functions@[k].name->0@ == name@);
                            }
                            self.to_user_defined_functions.insert(copy_member(&location), ());
                        },
                        None => {},
                    }
                    proof {
                        assert(self.view().user_defined =~= expected.user_defined);
                        assert(self.view() == expected);
                        lemma_resolve_members_concat(
                            old(self).view(),
                            body_members(branch.body@.take(j as int), at),
                            seq![(location, member.1)],
                            host.function_list(),
                            syntax_tree.named_functions@,
                        );
                        lemma_resolve_one(before, (location, member.1), host.function_list(), syntax_tree.named_functions@);
                        assert(body_members(taken, at) =~= body_members(branch.body@.take(j as int), at)
                            + seq![(location, member.1)]);
                    }
                },
                Expression::LocalFunction { function } => {
                    let function_at = FunctionLocation::AnonymousFunction { location: Box::new(copy_member(&location)) };
                    proof {
                        lemma_resolve_members_concat(
                            old(self).view(),
                            body_members(branch.body@.take(j as int), at),
                            seq![(location, member.1)],
                            host.function_list(),
                            syntax_tree.named_functions@,
                        );
                        lemma_resolve_one(before, (location, member.1), host.function_list(), syntax_tree.named_functions@);
                        assert(decreases_to!(*branch => branch.body@[j as int].1));
                    }
                    self.resolve_function(function, function_at, syntax_tree, host);
                    proof {
                        lemma_resolve_members_concat(
                            old(self).view(),
                            body_members(branch.body@.take(j as int), at) + seq![(location, member.1)],
                            function_members(*function, function_at),
                            host.function_list(),
                            syntax_tree.named_functions@,
                        );
                        assert(body_members(taken, at) =~= body_members(branch.body@.take(j as int), at)
                            + seq![(location, member.1)] + function_members(*function, function_at));
                    }
                },
                _ => {
                    proof {
                        lemma_resolve_members_concat(
                            old(self).view(),
                            body_members(branch.body@.take(j as int), at),
                            seq![(location, member.1)],
                            host.function_list(),
                            syntax_tree.named_functions@,
                        );
                        lemma_resolve_one(before, (location, member.1), host.function_list(), syntax_tree.named_functions@);
                        assert(body_members(taken, at) =~= body_members(branch.body@.take(j as int), at)
                            + seq![(location, member.1)]);
                    }
                },
            }
            j = j + 1;
        }
        assert(branch.body@.take(j as int) =~= branch.body@);
    }

    /// # The host function that the expression at the given location calls,
    /// if any
    pub fn is_call_to_host_function(&self, location: &MemberLocation) -> (result: Option<&HostFunction>)
        ensures
            match result {
                Some(function) => self.view().host.contains_key(*location) && *function
                    == self.view().host[*location],
                None => !self.view().host.contains_key(*location),
            },
    {
        self.to_host_functions.get(location)
    }

    /// # The intrinsic function that the expression at the given location
    /// calls, if any
    pub fn is_call_to_intrinsic_function(&self, location: &MemberLocation) -> (result: Option<&IntrinsicFunction>)
        ensures
            match result {
                Some(function) => self.view().intrinsic.contains_key(*location) && *function
                    == self.view().intrinsic[*location],
                None => !self.view().intrinsic.contains_key(*location),
            },
    {
        self.to_intrinsic_functions.get(location)
    }

    /// # Whether the expression at the given location calls a user-defined
    /// function
    pub fn is_call_to_user_defined_function(&self, location: &MemberLocation) -> (result: bool)
        ensures
            result == self.view().user_defined.contains(*location),
    {
        self.to_user_defined_functions.get(location).is_some()
    }
}

} // verus!
