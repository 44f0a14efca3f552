//! Resolving bindings: identifiers that refer to values that a parameter
//! bound to a name.

use vstd::prelude::*;

use crate::compiler::location::{
    copy_branch, copy_function, copy_member, BranchLocation, FunctionIndexInRootContext,
    FunctionLocation, MemberLocation,
};
use crate::compiler::scopes::{bound_in, lemma_push_to_set, resolution, BindingResolved, NameSet, Scopes};
use crate::compiler::syntax::{member_location, Branch, Expression, Function, Pattern, SyntaxTree};
use crate::compiler::table::Table;

verus! {

/// The bindings that were resolved
pub struct BindingsView {
    /// The locations of the identifiers that are bindings
    pub bindings: Set<MemberLocation>,
    /// The environment of each function: the names of the bindings that it
    /// accesses, and that are not its own parameters
    pub environments: Map<FunctionLocation, Set<Seq<char>>>,
}

/// The names that the identifier patterns among the parameters bind
pub open spec fn parameter_names(parameters: Seq<Pattern>) -> Set<Seq<char>>
    decreases parameters.len(),
{
    if parameters.len() == 0 {
        Set::empty()
    } else {
        let rest = parameter_names(parameters.drop_last());
        match parameters.last() {
            Pattern::Identifier { name } => rest.insert(name@),
            Pattern::Literal { .. } => rest,
        }
    }
}

/// The names of a child function's environment that the parent function
/// must capture too: those not bound by the parent's current branch
pub open spec fn inherited(child: Set<Seq<char>>, scopes: Seq<Set<Seq<char>>>) -> Set<Seq<char>> {
    child.filter(|name: Seq<char>| !(scopes.len() > 0 && scopes.last().contains(name)))
}

/// Resolving the bindings in a function, given the scopes around it: the new
/// state, and the function's environment
pub open spec fn function_bindings(
    state: BindingsView,
    function: Function,
    at: FunctionLocation,
    scopes: Seq<Set<Seq<char>>>,
) -> (BindingsView, Set<Seq<char>>)
    decreases function,
{
    let (after, environment) = branches_bindings(state, function.branches@, at, scopes, Set::empty());
    (BindingsView { environments: after.environments.insert(at, environment), ..after }, environment)
}

/// Resolving the bindings in branches of a function, collecting the
/// function's environment
pub open spec fn branches_bindings(
    state: BindingsView,
    branches: Seq<(crate::compiler::location::BranchIndex, Branch)>,
    at: FunctionLocation,
    scopes: Seq<Set<Seq<char>>>,
    environment: Set<Seq<char>>,
) -> (BindingsView, Set<Seq<char>>)
    decreases branches,
{
    if branches.len() == 0 {
        (state, environment)
    } else {
        let last = branches.last();
        let (after, env) = branches_bindings(
            state,
            branches.subrange(0, branches.len() - 1),
            at,
            scopes,
            environment,
        );
        body_bindings(
            after,
            last.1.body@,
            BranchLocation { parent: Box::new(at), index: last.0 },
            scopes.push(parameter_names(last.1.parameters@)),
            env,
        )
    }
}

/// Resolving the bindings in a branch body, given the scopes, the branch's
/// own last
pub open spec fn body_bindings(
    state: BindingsView,
    members: Seq<(crate::compiler::location::FragmentIndexInBranchBody, Expression)>,
    at: BranchLocation,
    scopes: Seq<Set<Seq<char>>>,
    environment: Set<Seq<char>>,
) -> (BindingsView, Set<Seq<char>>)
    decreases members,
{
    if members.len() == 0 {
        (state, environment)
    } else {
        let j = members.len() - 1;
        let (after, env) = body_bindings(state, members.subrange(0, j), at, scopes, environment);
        let location = member_location(at, members, j);
        match members[j].1 {
            Expression::Identifier { name } => match resolution(scopes, name@) {
                Some(BindingResolved::InScope) => (
                    BindingsView { bindings: after.bindings.insert(location), ..after },
                    env,
                ),
                Some(BindingResolved::InEnvironment) => (
                    BindingsView { bindings: after.bindings.insert(location), ..after },
                    env.insert(name@),
                ),
                None => (after, env),
            },
            Expression::LocalFunction { function } => {
                let (child_after, child_environment) = function_bindings(
                    after,
                    function,
                    FunctionLocation::AnonymousFunction { location: Box::new(location) },
                    scopes,
                );
                (child_after, env.union(inherited(child_environment, scopes)))
            },
            _ => (after, env),
        }
    }
}

/// Resolving the bindings in the named functions, one after the other, each
/// outside of any scope
pub open spec fn named_functions_bindings(functions: Seq<Function>) -> BindingsView
    decreases functions.len(),
{
    if functions.len() == 0 {
        BindingsView { bindings: Set::empty(), environments: Map::empty() }
    } else {
        let i = functions.len() - 1;
        function_bindings(
            named_functions_bindings(functions.drop_last()),
            functions[i],
            FunctionLocation::NamedFunction { index: FunctionIndexInRootContext(i as u32) },
            Seq::empty(),
        ).0
    }
}

/// A member of a branch body, with its location and the scopes it is in:
/// the names that the parameters of its branch and of the branches of the
/// functions around it bind, the innermost last
pub type ScopedMember = (MemberLocation, Expression, Seq<Set<Seq<char>>>);

/// The members of a function, each with the scopes it is in
pub open spec fn function_scopes(function: Function, at: FunctionLocation, scopes: Seq<Set<Seq<char>>>) -> Seq<ScopedMember>
    decreases function,
{
    branches_scopes(function.branches@, at, scopes)
}

/// The members of branches of a function, each with the scopes it is in
pub open spec fn branches_scopes(
    branches: Seq<(crate::compiler::location::BranchIndex, Branch)>,
    at: FunctionLocation,
    scopes: Seq<Set<Seq<char>>>,
) -> Seq<ScopedMember>
    decreases branches,
{
    if branches.len() == 0 {
        Seq::empty()
    } else {
        let last = branches.last();
        branches_scopes(branches.subrange(0, branches.len() - 1), at, scopes) + body_scopes(
            last.1.body@,
            BranchLocation { parent: Box::new(at), index: last.0 },
            scopes.push(parameter_names(last.1.parameters@)),
        )
    }
}

/// The members of a branch body, and those of its local functions, each with
/// the scopes it is in
pub open spec fn body_scopes(
    members: Seq<(crate::compiler::location::FragmentIndexInBranchBody, Expression)>,
    at: BranchLocation,
    scopes: Seq<Set<Seq<char>>>,
) -> Seq<ScopedMember>
    decreases members,
{
    if members.len() == 0 {
        Seq::empty()
    } else {
        let j = members.len() - 1;
        let location = member_location(at, members, j);
        body_scopes(members.subrange(0, j), at, scopes) + seq![(location, members[j].1, scopes)]
            + match members[j].1 {
            Expression::LocalFunction { function } => function_scopes(
                function,
                FunctionLocation::AnonymousFunction { location: Box::new(location) },
                scopes,
            ),
            _ => Seq::empty(),
        }
    }
}

/// The members of the named functions, each with the scopes it is in
pub open spec fn named_functions_scopes(functions: Seq<Function>) -> Seq<ScopedMember>
    decreases functions.len(),
{
    if functions.len() == 0 {
        Seq::empty()
    } else {
        let i = functions.len() - 1;
        named_functions_scopes(functions.drop_last()) + function_scopes(
            functions[i],
            FunctionLocation::NamedFunction { index: FunctionIndexInRootContext(i as u32) },
            Seq::empty(),
        )
    }
}

/// Whether a member is an identifier whose name a scope it is in binds
pub open spec fn is_bound(member: ScopedMember) -> bool {
    match member.1 {
        Expression::Identifier { name } => bound_in(member.2, name@),
        _ => false,
    }
}

/// The locations of the members that are bound identifiers
pub open spec fn bound_locations(members: Seq<ScopedMember>) -> Set<MemberLocation> {
    Set::new(|location: MemberLocation| exists|j: int| 0 <= j < members.len() && members[j].0 == location && is_bound(#[trigger] members[j]))
}

/// The bound locations of two runs of members are those of either
proof fn lemma_bound_locations_concat(a: Seq<ScopedMember>, b: Seq<ScopedMember>)
    ensures
        bound_locations(a + b) == bound_locations(a).union(bound_locations(b)),
{
    assert forall|l: MemberLocation| bound_locations(a + b).contains(l) implies bound_locations(a).union(
        bound_locations(b),
    ).contains(l) by {
        let j = choose|j: int| 0 <= j < (a + b).len() && (a + b)[j].0 == l && is_bound(#[trigger] (a + b)[j]);
        if j < a.len() {
            assert((a + b)[j] == a[j]);
        } else {
            assert((a + b)[j] == b[j - a.len()]);
        }
    }
    assert forall|l: MemberLocation| bound_locations(a).union(bound_locations(b)).contains(l) implies bound_locations(
        a + b,
    ).contains(l) by {
        if bound_locations(a).contains(l) {
            let j = choose|j: int| 0 <= j < a.len() && a[j].0 == l && is_bound(#[trigger] a[j]);
            assert((a + b)[j] == a[j]);
        } else {
            let j = choose|j: int| 0 <= j < b.len() && b[j].0 == l && is_bound(#[trigger] b[j]);
            assert((a + b)[a.len() + j] == b[j]);
        }
    }
    assert(bound_locations(a + b) =~= bound_locations(a).union(bound_locations(b)));
}

/// A name resolves in the scopes exactly where some scope binds it
proof fn lemma_resolution_bound(scopes: Seq<Set<Seq<char>>>, name: Seq<char>)
    ensures
        (resolution(scopes, name) is Some) == bound_in(scopes, name),
{
    if scopes.len() > 0 && scopes.last().contains(name) {
        assert(scopes[scopes.len() - 1].contains(name));
    }
}

/// Resolving the bindings in a function adds the locations of its bound
/// identifiers
proof fn lemma_function_bound(
    state: BindingsView,
    function: Function,
    at: FunctionLocation,
    scopes: Seq<Set<Seq<char>>>,
)
    ensures
        function_bindings(state, function, at, scopes).0.bindings == state.bindings.union(
            bound_locations(function_scopes(function, at, scopes)),
        ),
    decreases function,
{
    lemma_branches_bound(state, function.branches@, at, scopes, Set::empty());
}

/// Resolving the bindings in branches adds the locations of their bound
/// identifiers
proof fn lemma_branches_bound(
    state: BindingsView,
    branches: Seq<(crate::compiler::location::BranchIndex, Branch)>,
    at: FunctionLocation,
    scopes: Seq<Set<Seq<char>>>,
    environment: Set<Seq<char>>,
)
    ensures
        branches_bindings(state, branches, at, scopes, environment).0.bindings == state.bindings.union(
            bound_locations(branches_scopes(branches, at, scopes)),
        ),
    decreases branches,
{
    if branches.len() == 0 {
        assert(bound_locations(Seq::<ScopedMember>::empty()) =~= Set::<MemberLocation>::empty());
        assert(state.bindings.union(Set::<MemberLocation>::empty()) =~= state.bindings);
    } else {
        let last = branches.last();
        let prefix = branches.subrange(0, branches.len() - 1);
        lemma_branches_bound(state, prefix, at, scopes, environment);
        let (after, env) = branches_bindings(state, prefix, at, scopes, environment);
        let branch_at = BranchLocation { parent: Box::new(at), index: last.0 };
        let inner = scopes.push(parameter_names(last.1.parameters@));
        lemma_body_bound(after, last.1.body@, branch_at, inner, env);
        lemma_bound_locations_concat(branches_scopes(prefix, at, scopes), body_scopes(last.1.body@, branch_at, inner));
        assert(state.bindings.union(bound_locations(branches_scopes(prefix, at, scopes))).union(
            bound_locations(body_scopes(last.1.body@, branch_at, inner)),
        ) =~= state.bindings.union(bound_locations(branches_scopes(branches, at, scopes))));
    }
}

/// Resolving the bindings in a branch body adds the locations of its bound
/// identifiers, and of those of its local functions
proof fn lemma_body_bound(
    state: BindingsView,
    members: Seq<(crate::compiler::location::FragmentIndexInBranchBody, Expression)>,
    at: BranchLocation,
    scopes: Seq<Set<Seq<char>>>,
    environment: Set<Seq<char>>,
)
    ensures
        body_bindings(state, members, at, scopes, environment).0.bindings == state.bindings.union(
            bound_locations(body_scopes(members, at, scopes)),
        ),
    decreases members,
{
    if members.len() == 0 {
        assert(bound_locations(Seq::<ScopedMember>::empty()) =~= Set::<MemberLocation>::empty());
        assert(state.bindings.union(Set::<MemberLocation>::empty()) =~= state.bindings);
    } else {
        let j = members.len() - 1;
        let prefix = members.subrange(0, j);
        let location = member_location(at, members, j);
        lemma_body_bound(state, prefix, at, scopes, environment);
        let (after, env) = body_bindings(state, prefix, at, scopes, environment);
        let own: Seq<ScopedMember> = seq![(location, members[j].1, scopes)];
        let nested: Seq<ScopedMember> = match members[j].1 {
            Expression::LocalFunction { function } => function_scopes(
                function,
                FunctionLocation::AnonymousFunction { location: Box::new(location) },
                scopes,
            ),
            _ => Seq::empty(),
        };
        let before = body_scopes(prefix, at, scopes);
        assert(body_scopes(members, at, scopes) == before + own + nested);
        lemma_bound_locations_concat(before, own);
        lemma_bound_locations_concat(before + own, nested);
        match members[j].1 {
            Expression::Identifier { name } => {
                lemma_resolution_bound(scopes, name@);
                if bound_in(scopes, name@) {
                    assert(own[0].0 == location && is_bound(own[0]));
                    assert(bound_locations(own) =~= set![location]);
                } else {
                    assert(bound_locations(own) =~= Set::<MemberLocation>::empty());
                }
                assert(bound_locations(nested) =~= Set::<MemberLocation>::empty());
            },
            Expression::LocalFunction { function } => {
                assert(bound_locations(own) =~= Set::<MemberLocation>::empty());
                lemma_function_bound(
                    after,
                    function,
                    FunctionLocation::AnonymousFunction { location: Box::new(location) },
                    scopes,
                );
            },
            _ => {
                assert(bound_locations(own) =~= Set::<MemberLocation>::empty());
                assert(bound_locations(nested) =~= Set::<MemberLocation>::empty());
            },
        }
        assert(body_bindings(state, members, at, scopes, environment).0.bindings =~= state.bindings.union(
            bound_locations(body_scopes(members, at, scopes)),
        ));
    }
}

/// The bindings of the code are exactly the identifiers whose names the
/// parameters of their own branch, or of a branch of a function around it,
/// bind
pub proof fn law_bindings_are_the_bound_identifiers(functions: Seq<Function>)
    ensures
        named_functions_bindings(functions).bindings == bound_locations(named_functions_scopes(functions)),
    decreases functions.len(),
{
    if functions.len() == 0 {
        assert(bound_locations(Seq::<ScopedMember>::empty()) =~= Set::<MemberLocation>::empty());
    } else {
        let i = functions.len() - 1;
        let at = FunctionLocation::NamedFunction { index: FunctionIndexInRootContext(i as u32) };
        law_bindings_are_the_bound_identifiers(functions.drop_last());
        lemma_function_bound(named_functions_bindings(functions.drop_last()), functions[i], at, Seq::empty());
        lemma_bound_locations_concat(
            named_functions_scopes(functions.drop_last()),
            function_scopes(functions[i], at, Seq::empty()),
        );
    }
}

/// The environment that resolving the bindings in branches of a function
/// collects holds only the names it started with, and names that the scopes
/// around the function bind
proof fn lemma_branches_environment(
    state: BindingsView,
    branches: Seq<(crate::compiler::location::BranchIndex, Branch)>,
    at: FunctionLocation,
    scopes: Seq<Set<Seq<char>>>,
    environment: Set<Seq<char>>,
)
    ensures
        forall|name: Seq<char>|
            #[trigger] branches_bindings(state, branches, at, scopes, environment).1.contains(name)
                ==> environment.contains(name) || bound_in(scopes, name),
    decreases branches,
{
    if branches.len() > 0 {
        let last = branches.last();
        let prefix = branches.subrange(0, branches.len() - 1);
        lemma_branches_environment(state, prefix, at, scopes, environment);
        let (after, env) = branches_bindings(state, prefix, at, scopes, environment);
        let inner = scopes.push(parameter_names(last.1.parameters@));
        lemma_body_environment(after, last.1.body@, BranchLocation { parent: Box::new(at), index: last.0 }, inner, env);
        assert(inner.drop_last() =~= scopes);
        let branch_at = BranchLocation { parent: Box::new(at), index: last.0 };
        assert(branches_bindings(state, branches, at, scopes, environment) == body_bindings(
            after,
            last.1.body@,
            branch_at,
            inner,
            env,
        ));
        assert forall|name: Seq<char>|
            #[trigger] branches_bindings(state, branches, at, scopes, environment).1.contains(name)
                implies environment.contains(name) || bound_in(scopes, name) by {
            assert(body_bindings(after, last.1.body@, branch_at, inner, env).1.contains(name));
            if env.contains(name) {
                assert(branches_bindings(state, prefix, at, scopes, environment).1.contains(name));
            }
        }
    }
}

/// The environment that resolving the bindings in a branch body collects
/// holds only the names it started with, and names that the scopes around
/// the branch's function bind: all but the branch's own, the last
proof fn lemma_body_environment(
    state: BindingsView,
    members: Seq<(crate::compiler::location::FragmentIndexInBranchBody, Expression)>,
    at: BranchLocation,
    scopes: Seq<Set<Seq<char>>>,
    environment: Set<Seq<char>>,
)
    requires
        scopes.len() > 0,
    ensures
        forall|name: Seq<char>|
            #[trigger] body_bindings(state, members, at, scopes, environment).1.contains(name)
                ==> environment.contains(name) || bound_in(scopes.drop_last(), name),
    decreases members,
{
    if members.len() > 0 {
        let j = members.len() - 1;
        let prefix = members.subrange(0, j);
        let location = member_location(at, members, j);
        lemma_body_environment(state, prefix, at, scopes, environment);
        let (after, env) = body_bindings(state, prefix, at, scopes, environment);
        let result = body_bindings(state, members, at, scopes, environment).1;
        match members[j].1 {
            Expression::Identifier { name } => {
                if resolution(scopes, name@) == Some(BindingResolved::InEnvironment) {
                    let i = choose|i: int| 0 <= i < scopes.len() && (#[trigger] scopes[i]).contains(name@);
                    assert(i != scopes.len() - 1);
                    assert(scopes.drop_last()[i] == scopes[i]);
                    assert(bound_in(scopes.drop_last(), name@));
                }
            },
            Expression::LocalFunction { function } => {
                let child_at = FunctionLocation::AnonymousFunction { location: Box::new(location) };
                lemma_branches_environment(after, function.branches@, child_at, scopes, Set::empty());
                let child = function_bindings(after, function, child_at, scopes).1;
                assert forall|name: Seq<char>| #[trigger] inherited(child, scopes).contains(name) implies bound_in(
                    scopes.drop_last(),
                    name,
                ) by {
                    assert(child.contains(name));
                    assert(branches_bindings(after, function.branches@, child_at, scopes, Set::empty()).1.contains(name));
                    let i = choose|i: int| 0 <= i < scopes.len() && (#[trigger] scopes[i]).contains(name);
                    assert(!scopes.last().contains(name));
                    assert(i != scopes.len() - 1);
                    assert(scopes.drop_last()[i] == scopes[i]);
                }
            },
            _ => {},
        }
    }
}

/// A function's environment holds only names that the scopes around it
/// bind, so a function outside of any scope, such as a named function, has
/// none
pub proof fn law_environment_is_bound_outside(
    state: BindingsView,
    function: Function,
    at: FunctionLocation,
    scopes: Seq<Set<Seq<char>>>,
)
    ensures
        forall|name: Seq<char>|
            #[trigger] function_bindings(state, function, at, scopes).1.contains(name) ==> bound_in(scopes, name),
        scopes.len() == 0 ==> function_bindings(state, function, at, scopes).1 == Set::<Seq<char>>::empty(),
        function_bindings(state, function, at, scopes).0.environments[at] == function_bindings(
            state,
            function,
            at,
            scopes,
        ).1,
{
    lemma_branches_environment(state, function.branches@, at, scopes, Set::empty());
    let environment = branches_bindings(state, function.branches@, at, scopes, Set::empty()).1;
    assert(function_bindings(state, function, at, scopes).1 == environment);
    assert forall|name: Seq<char>|
        #[trigger] function_bindings(state, function, at, scopes).1.contains(name) implies bound_in(scopes, name) by {
        assert(environment.contains(name));
    }
    if scopes.len() == 0 {
        assert forall|name: Seq<char>| !environment.contains(name) by {
            if environment.contains(name) {
                assert(bound_in(scopes, name));
            }
        }
        assert(environment =~= Set::<Seq<char>>::empty());
    }
}

/// Whether a member is an identifier with the given name
pub open spec fn names(member: ScopedMember, name: Seq<char>) -> bool {
    match member.1 {
        Expression::Identifier { name: n } => n@ == name,
        _ => false,
    }
}

/// The names that members use as bindings, bound by the outer scopes and by
/// none of the scopes within them that the member is in
pub open spec fn captured_names(members: Seq<ScopedMember>, outer: Seq<Set<Seq<char>>>) -> Set<Seq<char>> {
    Set::new(
        |name: Seq<char>|
            exists|j: int|
                0 <= j < members.len() && names(#[trigger] members[j], name) && bound_in(outer, name)
                    && !bound_in(members[j].2.skip(outer.len() as int), name),
    )
}

/// Whether each member is within the scopes: they are the first ones it is
/// in
pub open spec fn within(members: Seq<ScopedMember>, scopes: Seq<Set<Seq<char>>>) -> bool {
    forall|j: int|
        0 <= j < members.len() ==> (#[trigger] members[j]).2.len() >= scopes.len() && members[j].2.take(
            scopes.len() as int,
        ) == scopes
}

/// The captured names of two runs of members are those of either
proof fn lemma_captured_concat(a: Seq<ScopedMember>, b: Seq<ScopedMember>, outer: Seq<Set<Seq<char>>>)
    ensures
        captured_names(a + b, outer) == captured_names(a, outer).union(captured_names(b, outer)),
        within(a, outer) && within(b, outer) ==> within(a + b, outer),
{
    assert forall|name: Seq<char>| captured_names(a + b, outer).contains(name) == captured_names(a, outer).union(
        captured_names(b, outer),
    ).contains(name) by {
        if captured_names(a + b, outer).contains(name) {
            let j = choose|j: int|
                0 <= j < (a + b).len() && names(#[trigger] (a + b)[j], name) && bound_in(outer, name)
                    && !bound_in((a + b)[j].2.skip(outer.len() as int), name);
            if j < a.len() {
                assert((a + b)[j] == a[j]);
            } else {
                assert((a + b)[j] == b[j - a.len()]);
            }
        }
        if captured_names(a, outer).contains(name) {
            let j = choose|j: int|
                0 <= j < a.len() && names(#[trigger] a[j], name) && bound_in(outer, name) && !bound_in(
                    a[j].2.skip(outer.len() as int),
                    name,
                );
            assert((a + b)[j] == a[j]);
        }
        if captured_names(b, outer).contains(name) {
            let j = choose|j: int|
                0 <= j < b.len() && names(#[trigger] b[j], name) && bound_in(outer, name) && !bound_in(
                    b[j].2.skip(outer.len() as int),
                    name,
                );
            assert((a + b)[a.len() + j] == b[j]);
        }
    }
    assert(captured_names(a + b, outer) =~= captured_names(a, outer).union(captured_names(b, outer)));
    if within(a, outer) && within(b, outer) {
        assert forall|j: int| 0 <= j < (a + b).len() implies (#[trigger] (a + b)[j]).2.len() >= outer.len()
            && (a + b)[j].2.take(outer.len() as int) == outer by {
            if j < a.len() {
                assert((a + b)[j] == a[j]);
            } else {
                assert((a + b)[j] == b[j - a.len()]);
            }
        }
    }
}

/// A local function's environment, less the names that the branch around it
/// binds, is what its members capture from the scopes around that branch
proof fn lemma_inherited_captured(members: Seq<ScopedMember>, scopes: Seq<Set<Seq<char>>>)
    requires
        scopes.len() > 0,
        within(members, scopes),
    ensures
        inherited(captured_names(members, scopes), scopes) == captured_names(members, scopes.drop_last()),
        within(members, scopes.drop_last()),
{
    let outer = scopes.drop_last();
    let last = scopes.last();
    assert forall|j: int| 0 <= j < members.len() implies (#[trigger] members[j]).2.len() >= outer.len()
        && members[j].2.take(outer.len() as int) == outer by {
        assert(members[j].2.take(scopes.len() as int) == scopes);
        assert(members[j].2.take(outer.len() as int) =~= scopes.take(outer.len() as int));
        assert(scopes.take(outer.len() as int) =~= outer);
    }
    assert forall|name: Seq<char>| inherited(captured_names(members, scopes), scopes).contains(name)
        == captured_names(members, outer).contains(name) by {
        assert forall|j: int| 0 <= j < members.len() implies (bound_in(
            #[trigger] members[j].2.skip(outer.len() as int),
            name,
        ) == (last.contains(name) || bound_in(members[j].2.skip(scopes.len() as int), name))) by {
            let m = members[j].2;
            assert(m.take(scopes.len() as int) == scopes);
            assert(m.skip(outer.len() as int)[0] == last);
            assert(m.skip(outer.len() as int).skip(1) =~= m.skip(scopes.len() as int));
            if bound_in(m.skip(outer.len() as int), name) {
                let i = choose|i: int| 0 <= i < m.skip(outer.len() as int).len() && (#[trigger] m.skip(outer.len() as int)[i]).contains(name);
                if i > 0 {
                    assert(m.skip(scopes.len() as int)[i - 1] == m.skip(outer.len() as int)[i]);
                }
            }
            if bound_in(m.skip(scopes.len() as int), name) {
                let i = choose|i: int| 0 <= i < m.skip(scopes.len() as int).len() && (#[trigger] m.skip(scopes.len() as int)[i]).contains(name);
                assert(m.skip(outer.len() as int)[i + 1] == m.skip(scopes.len() as int)[i]);
            }
        }
        if bound_in(scopes, name) && !last.contains(name) {
            let i = choose|i: int| 0 <= i < scopes.len() && (#[trigger] scopes[i]).contains(name);
            assert(outer[i] == scopes[i]);
        }
        if bound_in(outer, name) {
            let i = choose|i: int| 0 <= i < outer.len() && (#[trigger] outer[i]).contains(name);
            assert(scopes[i] == outer[i]);
        }
        if captured_names(members, outer).contains(name) {
            let j = choose|j: int|
                0 <= j < members.len() && names(#[trigger] members[j], name) && bound_in(outer, name)
                    && !bound_in(members[j].2.skip(outer.len() as int), name);
            assert(captured_names(members, scopes).contains(name));
        }
        if inherited(captured_names(members, scopes), scopes).contains(name) {
            let j = choose|j: int|
                0 <= j < members.len() && names(#[trigger] members[j], name) && bound_in(scopes, name)
                    && !bound_in(members[j].2.skip(scopes.len() as int), name);
            assert(captured_names(members, outer).contains(name));
        }
    }
    assert(inherited(captured_names(members, scopes), scopes) =~= captured_names(members, outer));
}

/// The environment that resolving the bindings in a function collects is
/// what its members capture from the scopes around it
proof fn lemma_function_captures(
    state: BindingsView,
    function: Function,
    at: FunctionLocation,
    scopes: Seq<Set<Seq<char>>>,
)
    ensures
        function_bindings(state, function, at, scopes).1 == captured_names(function_scopes(function, at, scopes), scopes),
        within(function_scopes(function, at, scopes), scopes),
    decreases function,
{
    lemma_branches_captures(state, function.branches@, at, scopes, Set::empty());
    assert(Set::<Seq<char>>::empty().union(captured_names(function_scopes(function, at, scopes), scopes))
        =~= captured_names(function_scopes(function, at, scopes), scopes));
}

/// The environment that resolving the bindings in branches collects
proof fn lemma_branches_captures(
    state: BindingsView,
    branches: Seq<(crate::compiler::location::BranchIndex, Branch)>,
    at: FunctionLocation,
    scopes: Seq<Set<Seq<char>>>,
    environment: Set<Seq<char>>,
)
    ensures
        branches_bindings(state, branches, at, scopes, environment).1 == environment.union(
            captured_names(branches_scopes(branches, at, scopes), scopes),
        ),
        within(branches_scopes(branches, at, scopes), scopes),
    decreases branches,
{
    if branches.len() == 0 {
        assert(captured_names(Seq::<ScopedMember>::empty(), scopes) =~= Set::<Seq<char>>::empty());
        assert(environment.union(Set::<Seq<char>>::empty()) =~= environment);
    } else {
        let last = branches.last();
        let prefix = branches.subrange(0, branches.len() - 1);
        lemma_branches_captures(state, prefix, at, scopes, environment);
        let (after, env) = branches_bindings(state, prefix, at, scopes, environment);
        let branch_at = BranchLocation { parent: Box::new(at), index: last.0 };
        let inner = scopes.push(parameter_names(last.1.parameters@));
        lemma_body_captures(after, last.1.body@, branch_at, inner, env);
        assert(inner.drop_last() =~= scopes);
        let body = body_scopes(last.1.body@, branch_at, inner);
        lemma_inherited_captured(body, inner);
        lemma_captured_concat(branches_scopes(prefix, at, scopes), body, scopes);
        assert(environment.union(captured_names(branches_scopes(prefix, at, scopes), scopes)).union(
            captured_names(body, scopes),
        ) =~= environment.union(captured_names(branches_scopes(branches, at, scopes), scopes)));
    }
}

/// The environment that resolving the bindings in a branch body collects:
/// what its members capture from the scopes around the branch's function
proof fn lemma_body_captures(
    state: BindingsView,
    members: Seq<(crate::compiler::location::FragmentIndexInBranchBody, Expression)>,
    at: BranchLocation,
    scopes: Seq<Set<Seq<char>>>,
    environment: Set<Seq<char>>,
)
    requires
        scopes.len() > 0,
    ensures
        body_bindings(state, members, at, scopes, environment).1 == environment.union(
            captured_names(body_scopes(members, at, scopes), scopes.drop_last()),
        ),
        within(body_scopes(members, at, scopes), scopes),
    decreases members,
{
    let outer = scopes.drop_last();
    if members.len() == 0 {
        assert(captured_names(Seq::<ScopedMember>::empty(), outer) =~= Set::<Seq<char>>::empty());
        assert(environment.union(Set::<Seq<char>>::empty()) =~= environment);
    } else {
        let j = members.len() - 1;
        let prefix = members.subrange(0, j);
        let location = member_location(at, members, j);
        lemma_body_captures(state, prefix, at, scopes, environment);
        let (after, env) = body_bindings(state, prefix, at, scopes, environment);
        let own: Seq<ScopedMember> = seq![(location, members[j].1, scopes)];
        let nested: Seq<ScopedMember> = match members[j].1 {
            Expression::LocalFunction { function } => function_scopes(
                function,
                FunctionLocation::AnonymousFunction { location: Box::new(location) },
                scopes,
            ),
            _ => Seq::empty(),
        };
        let before = body_scopes(prefix, at, scopes);
        assert(body_scopes(members, at, scopes) == before + own + nested);
        assert(own[0].2.take(scopes.len() as int) =~= scopes);
        assert(within(own, scopes));
        assert(own[0].2.skip(outer.len() as int) =~= seq![scopes.last()]);
        match members[j].1 {
            Expression::Identifier { name } => {
                assert(within(nested, scopes));
                assert(captured_names(nested, outer) =~= Set::<Seq<char>>::empty());
                let resolved = resolution(scopes, name@) == Some(BindingResolved::InEnvironment);
                if resolved {
                    let i = choose|i: int| 0 <= i < scopes.len() && (#[trigger] scopes[i]).contains(name@);
                    assert(i != scopes.len() - 1);
                    assert(outer[i] == scopes[i]);
                }
                let only = seq![scopes.last()];
                assert(own[0].2.skip(outer.len() as int) == only);
                assert forall|n: Seq<char>| captured_names(own, outer).contains(n) == (resolved && n == name@) by {
                    assert(bound_in(only, n) == scopes.last().contains(n)) by {
                        if scopes.last().contains(n) {
                            assert(only[0].contains(n));
                        }
                    }
                    assert((bound_in(scopes, n) && !scopes.last().contains(n)) == (bound_in(outer, n)
                        && !scopes.last().contains(n))) by {
                        if bound_in(scopes, n) && !scopes.last().contains(n) {
                            let i = choose|i: int| 0 <= i < scopes.len() && (#[trigger] scopes[i]).contains(n);
                            assert(outer[i] == scopes[i]);
                        }
                        if bound_in(outer, n) {
                            let i = choose|i: int| 0 <= i < outer.len() && (#[trigger] outer[i]).contains(n);
                            assert(scopes[i] == outer[i]);
                        }
                    }
                    assert(names(own[0], n) == (n == name@));
                    if resolved && n == name@ {
                        assert(names(own[0], n) && bound_in(outer, n) && !bound_in(own[0].2.skip(outer.len() as int), n));
                    }
                }
            },
            Expression::LocalFunction { function } => {
                assert(captured_names(own, outer) =~= Set::<Seq<char>>::empty());
                let child_at = FunctionLocation::AnonymousFunction { location: Box::new(location) };
                lemma_function_captures(after, function, child_at, scopes);
                lemma_inherited_captured(nested, scopes);
            },
            _ => {
                assert(within(nested, scopes));
                assert(captured_names(own, outer) =~= Set::<Seq<char>>::empty());
                assert(captured_names(nested, outer) =~= Set::<Seq<char>>::empty());
            },
        }
        lemma_captured_concat(before, own, outer);
        lemma_captured_concat(before + own, nested, outer);
        lemma_captured_concat(before, own, scopes);
        lemma_captured_concat(before + own, nested, scopes);
        assert(body_bindings(state, members, at, scopes, environment).1 =~= environment.union(
            captured_names(body_scopes(members, at, scopes), outer),
        ));
    }
}

/// A function's environment holds exactly the names that its members, and
/// those of the functions within it, use as bindings, bound by the scopes
/// around the function and by none of the parameters of the branches they
/// are in, from the function's own inward
pub proof fn law_environment_is_what_is_captured(
    state: BindingsView,
    function: Function,
    at: FunctionLocation,
    scopes: Seq<Set<Seq<char>>>,
)
    ensures
        function_bindings(state, function, at, scopes).1 == captured_names(function_scopes(function, at, scopes), scopes),
        function_bindings(state, function, at, scopes).0.environments[at] == captured_names(
            function_scopes(function, at, scopes),
            scopes,
        ),
{
    lemma_function_captures(state, function, at, scopes);
}

/// # Tracks bindings
///
/// A binding is an identifier that refers to a value that was previously bound
/// to a name.
#[derive(Debug)]
pub struct Bindings {
    bindings: Table<MemberLocation, ()>,
    environments: Table<FunctionLocation, NameSet>,
}

impl Bindings {
    /// The bindings, and the environments of the functions
    pub closed spec fn view(&self) -> BindingsView {
        BindingsView {
            bindings: self.bindings.view().dom(),
            environments: self.environments.view().map_values(|e: NameSet| e.view()),
        }
    }

    /// # Resolve all bindings
    pub fn resolve(syntax_tree: &SyntaxTree) -> (result: Self)
        requires
            syntax_tree.named_functions@.len() <= u32::MAX,
        ensures
            result.view() == named_functions_bindings(syntax_tree.named_functions@),
    {
        let mut bindings = Bindings { bindings: Table::new(), environments: Table::new() };
        assert(bindings.view().bindings =~= Set::<MemberLocation>::empty());
        assert(bindings.view().environments =~= Map::<FunctionLocation, Set<Seq<char>>>::empty());
        let mut scopes = Scopes::new();
        let functions = &syntax_tree.named_functions;
        let mut i: usize = 0;
        while i < functions.len()
            invariant
                i <= functions@.len(),
                functions@.len() <= u32::MAX,
                scopes.view() == Seq::<Set<Seq<char>>>::empty(),
                bindings.view() == named_functions_bindings(functions@.take(i as int)),
            decreases functions@.len() - i,
        {
            let at = FunctionLocation::NamedFunction { index: FunctionIndexInRootContext(i as u32) };
            let _ = bindings.resolve_function(&functions[i], at, &mut scopes);
            proof {
                let taken = functions@.take(i + 1);
                assert(taken.drop_last() =~= functions@.take(i as int));
            }
            i = i + 1;
        }
        assert(functions@.take(i as int) =~= functions@);
        bindings
    }

    fn resolve_function(&mut self, function: &Function, at: FunctionLocation, scopes: &mut Scopes) -> (result: NameSet)
        ensures
            (final(self).view(), result.view()) == function_bindings(
                old(self).view(),
                *function,
                at,
                old(scopes).view(),
            ),
            final(scopes).view() == old(scopes).view(),
        decreases function,
    {
        let mut environment = NameSet::new();
        let mut k: usize = 0;
        while k < function.branches.len()
            invariant
                k <= function.branches@.len(),
                scopes.view() == old(scopes).view(),
                (self.view(), environment.view()) == branches_bindings(
                    old(self).view(),
                    function.branches@.take(k as int),
                    at,
                    old(scopes).view(),
                    Set::empty(),
                ),
            decreases function.branches@.len() - k,
        {
            let branch = &function.branches[k];
            let branch_at = BranchLocation { parent: Box::new(copy_function(&at)), index: branch.0 };
            proof {
                let taken = function.branches@.take(k + 1);
                assert(taken.subrange(0, taken.len() - 1) =~= function.branches@.take(k as int));
                assert(decreases_to!(*function => function.branches@[k as int].1));
            }
            self.resolve_branch(&branch.1, branch_at, scopes, &mut environment);
            k = k + 1;
        }
        assert(function.branches@.take(k as int) =~= function.branches@);
        let result = environment.clone();
        self.environments.insert(at, environment);
        proof {
            let expected = function_bindings(old(self).view(), *function, at, old(scopes).view());
            assert(self.view().bindings =~= expected.0.bindings);
            assert(self.view().environments =~= expected.0.environments);
            assert(self.view() == expected.0);
        }
        result
    }

    fn resolve_branch(&mut self, branch: &Branch, at: BranchLocation, scopes: &mut Scopes, environment: &mut NameSet)
        ensures
            (final(self).view(), final(environment).view()) == body_bindings(
                old(self).view(),
                branch.body@,
                at,
                old(scopes).view().push(parameter_names(branch.parameters@)),
                old(environment).view(),
            ),
            final(scopes).view() == old(scopes).view(),
        decreases branch,
    {
        let mut parameters = NameSet::new();
        let mut p: usize = 0;
        while p < branch.parameters.len()
            invariant
                p <= branch.parameters@.len(),
                parameters.view() == parameter_names(branch.parameters@.take(p as int)),
            decreases branch.parameters@.len() - p,
        {
            let ghost taken = branch.parameters@.take(p + 1);
            assert(taken.drop_last() =~= branch.parameters@.take(p as int));
            match &branch.parameters[p] {
                Pattern::Identifier { name } => parameters.insert(name.clone()),
                Pattern::Literal { .. } => {},
            }
            p = p + 1;
        }
        assert(branch.parameters@.take(p as int) =~= branch.parameters@);
        scopes.push(parameters);
        let ghost inner = scopes.view();
        let mut j: usize = 0;
        while j < branch.body.len()
            invariant
                j <= branch.body@.len(),
                scopes.view() == inner,
                inner == old(scopes).view().push(parameter_names(branch.parameters@)),
                (self.view(), environment.view()) == body_bindings(
                    old(self).view(),
                    branch.body@.take(j as int),
                    at,
                    inner,
                    old(environment).view(),
                ),
            decreases branch.body@.len() - j,
        {
            let member = &branch.body[j];
            let location = MemberLocation { parent: Box::new(copy_branch(&at)), index: member.0 };
            let ghost taken = branch.body@.take(j + 1);
            proof {
                assert(taken.subrange(0, j as int) =~= branch.body@.take(j as int));
                assert(member_location(at, taken, j as int) == location);
            }
            match &member.1 {
                Expression::Identifier { name } => {
                    match scopes.resolve_binding(name.as_str()) {
                        Some(BindingResolved::InScope) => {
                            self.bindings.insert(location, ());
                        },
                        Some(BindingResolved::InEnvironment) => {
                            self.bindings.insert(location, ());
                            environment.insert(name.clone());
                        },
                        None => {},
                    }
                },
                Expression::LocalFunction { function } => {
                    let function_at = FunctionLocation::AnonymousFunction {
                        location: Box::new(location),
                    };
                    proof {
                        assert(decreases_to!(*branch => branch.body@[j as int].1));
                    }
                    let child = self.resolve_function(function, function_at, scopes);
                    let names = child.names();
                    let ghost before = environment.view();
                    let mut n: usize = 0;
                    while n < names.len()
                        invariant
                            n <= names@.len(),
                            scopes.view() == inner,
                            inner.len() > 0,
                            environment.view() == before.union(
                                inherited(
                                    names@.take(n as int).map_values(|name: String| name@).to_set(),
                                    inner,
                                ),
                            ),
                        decreases names@.len() - n,
                    {
                        let name = &names[n];
                        if !scopes.innermost_binds(name) {
                            environment.insert(name.clone());
                        }
                        proof {
                            let s0 = names@.take(n as int).map_values(|name: String| name@);
                            let s1 = names@.take(n + 1).map_values(|name: String| name@);
                            assert(s1 =~= s0.push(name@));
                            lemma_push_to_set(s0, name@);
                        }
                        n = n + 1;
                        assert(environment.view() =~= before.union(
                            inherited(
                                names@.take(n as int).map_values(|name: String| name@).to_set(),
                                inner,
                            ),
                        ));
                    }
                    assert(names@.take(n as int) =~= names@);
                },
                _ => {},
            }
            assert(self.view().bindings =~= body_bindings(
                old(self).view(),
                taken,
                at,
                inner,
                old(environment).view(),
            ).0.bindings);
            assert(environment.view() =~= body_bindings(
                old(self).view(),
                taken,
                at,
                inner,
                old(environment).view(),
            ).1);
            j = j + 1;
        }
        assert(branch.body@.take(j as int) =~= branch.body@);
        scopes.pop();
    }

    /// # Whether the expression at the given location is a binding
    pub fn is_binding(&self, location: &MemberLocation) -> (result: bool)
        ensures
            result == self.view().bindings.contains(*location),
    {
        self.bindings.get(location).is_some()
    }

    /// # The environment of the function at the given location
    ///
    /// Empty for a location that is not that of a function.
    pub fn environment_of(&self, location: &FunctionLocation) -> (result: NameSet)
        ensures
            result.view() == if self.view().environments.contains_key(*location) {
                self.view().environments[*location]
            } else {
                Set::empty()
            },
    {
        match self.environments.get(location) {
            Some(environment) => environment.clone(),
            None => NameSet::new(),
        }
    }
}

} // verus!
