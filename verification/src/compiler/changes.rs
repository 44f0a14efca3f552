//! Detecting the changes between two versions of the code: which named
//! functions were added, and which were updated.

use vstd::prelude::*;

use crate::compiler::hash::blake3_digest;
use crate::compiler::location::{BranchIndex, FragmentIndexInBranchBody, FunctionIndexInRootContext};
use crate::compiler::syntax::{
    Branch, Expression, Function, Pattern, SyntaxTree, pattern_token, patterns_tokens, same_branch,
    same_branches, same_function, same_member, same_members,
};

verus! {

/// The four bytes of a 32-bit number, least significant first
pub open spec fn u32_bytes(value: u32) -> Seq<u8> {
    seq![
        (value & 0xff) as u8,
        ((value >> 8u32) & 0xff) as u8,
        ((value >> 16u32) & 0xff) as u8,
        ((value >> 24u32) & 0xff) as u8,
    ]
}

/// The eight bytes of a 64-bit number, least significant first
pub open spec fn u64_bytes(value: u64) -> Seq<u8> {
    u32_bytes((value & 0xffff_ffff) as u32) + u32_bytes((value >> 32u64) as u32)
}

/// The bytes of the code points of the characters
pub open spec fn chars_bytes(text: Seq<char>) -> Seq<u8>
    decreases text.len(),
{
    if text.len() == 0 {
        Seq::empty()
    } else {
        chars_bytes(text.drop_last()) + u32_bytes(text.last() as u32)
    }
}

/// The bytes that encode a text: its length, then its characters
pub open spec fn text_bytes(text: Seq<char>) -> Seq<u8> {
    u64_bytes(text.len() as u64) + chars_bytes(text)
}

/// The bytes that encode a pattern
pub open spec fn pattern_bytes(pattern: Pattern) -> Seq<u8> {
    match pattern {
        Pattern::Identifier { name } => seq![0u8] + text_bytes(name@),
        Pattern::Literal { value } => seq![1u8] + u32_bytes(value as u32),
    }
}

/// The bytes that encode patterns, one after the other
pub open spec fn patterns_bytes(patterns: Seq<Pattern>) -> Seq<u8>
    decreases patterns.len(),
{
    if patterns.len() == 0 {
        Seq::empty()
    } else {
        patterns_bytes(patterns.drop_last()) + pattern_bytes(patterns.last())
    }
}

/// The bytes that encode a member of a branch body
pub open spec fn member_bytes(member: Expression) -> Seq<u8>
    decreases member,
{
    match member {
        Expression::Comment { text } => seq![0u8] + text_bytes(text@),
        Expression::Identifier { name } => seq![1u8] + text_bytes(name@),
        Expression::LiteralNumber { value } => seq![2u8] + u32_bytes(value as u32),
        Expression::LocalFunction { function } => seq![3u8] + function_bytes(function),
    }
}

/// The bytes that encode the members of a branch body, with their indices
pub open spec fn members_bytes(members: Seq<(FragmentIndexInBranchBody, Expression)>) -> Seq<u8>
    decreases members,
{
    if members.len() == 0 {
        Seq::empty()
    } else {
        let last = members.last();
        members_bytes(members.subrange(0, members.len() - 1)) + u32_bytes(last.0.0) + member_bytes(
            last.1,
        )
    }
}

/// The bytes that encode a branch
pub open spec fn branch_bytes(branch: Branch) -> Seq<u8>
    decreases branch,
{
    u64_bytes(branch.parameters@.len() as u64) + patterns_bytes(branch.parameters@) + u64_bytes(
        branch.body@.len() as u64,
    ) + members_bytes(branch.body@)
}

/// The bytes that encode the branches of a function, with their indices
pub open spec fn branches_bytes(branches: Seq<(BranchIndex, Branch)>) -> Seq<u8>
    decreases branches,
{
    if branches.len() == 0 {
        Seq::empty()
    } else {
        let last = branches.last();
        branches_bytes(branches.subrange(0, branches.len() - 1)) + u32_bytes(last.0.0) + branch_bytes(
            last.1,
        )
    }
}

/// The bytes that encode a function: its name, if any, and its branches
pub open spec fn function_bytes(function: Function) -> Seq<u8>
    decreases function,
{
    name_bytes(function.name) + u64_bytes(function.branches@.len() as u64) + branches_bytes(
        function.branches@,
    )
}

/// The bytes that encode the name of a function, if it has one
pub open spec fn name_bytes(name: Option<String>) -> Seq<u8> {
    match name {
        Some(name) => seq![1u8] + text_bytes(name@),
        None => seq![0u8],
    }
}

/// The hash of a function: the digest of the bytes that encode it
pub open spec fn function_hash(function: Function) -> Seq<u8> {
    blake3_digest(function_bytes(function))
}

fn push_u32(out: &mut Vec<u8>, value: u32)
    ensures
        final(out)@ == old(out)@ + u32_bytes(value),
{
    out.push((value & 0xff) as u8);
    out.push(((value >> 8u32) & 0xff) as u8);
    out.push(((value >> 16u32) & 0xff) as u8);
    out.push(((value >> 24u32) & 0xff) as u8);
    assert(out@ =~= old(out)@ + u32_bytes(value));
}

pub(crate) fn push_u64(out: &mut Vec<u8>, value: u64)
    ensures
        final(out)@ == old(out)@ + u64_bytes(value),
{
    push_u32(out, (value & 0xffff_ffff) as u32);
    push_u32(out, (value >> 32u64) as u32);
    assert(out@ =~= old(out)@ + u64_bytes(value));
}

pub(crate) fn push_text(out: &mut Vec<u8>, text: &String)
    ensures
        final(out)@ == old(out)@ + text_bytes(text@),
{
    let chars = crate::text::chars_of(text.as_str());
    push_u64(out, chars.len() as u64);
    let ghost start = out@;
    let mut i: usize = 0;
    while i < chars.len()
        invariant
            i <= chars@.len(),
            out@ == start + chars_bytes(chars@.take(i as int)),
        decreases chars@.len() - i,
    {
        push_u32(out, chars[i] as u32);
        proof {
            let taken = chars@.take(i + 1);
            assert(taken.drop_last() =~= chars@.take(i as int));
        }
        i = i + 1;
        assert(out@ =~= start + chars_bytes(chars@.take(i as int)));
    }
    assert(chars@.take(i as int) =~= chars@);
    assert(out@ =~= old(out)@ + text_bytes(text@));
}

fn push_function(out: &mut Vec<u8>, function: &Function)
    ensures
        final(out)@ == old(out)@ + function_bytes(*function),
    decreases function,
{
    match &function.name {
        Some(name) => {
            out.push(1u8);
            push_text(out, name);
        },
        None => out.push(0u8),
    }
    push_u64(out, function.branches.len() as u64);
    let ghost start = out@;
    assert(start =~= old(out)@ + name_bytes(function.name) + u64_bytes(
        function.branches@.len() as u64,
    ));
    let mut k: usize = 0;
    while k < function.branches.len()
        invariant
            k <= function.branches@.len(),
            out@ == start + branches_bytes(function.branches@.take(k as int)),
        decreases function.branches@.len() - k,
    {
        let branch = &function.branches[k];
        push_u32(out, branch.0.0);
        proof {
            assert(decreases_to!(*function => function.branches@[k as int].1));
        }
        push_branch(out, &branch.1);
        proof {
            let taken = function.branches@.take(k + 1);
            assert(taken.subrange(0, taken.len() - 1) =~= function.branches@.take(k as int));
        }
        k = k + 1;
        assert(out@ =~= start + branches_bytes(function.branches@.take(k as int)));
    }
    assert(function.branches@.take(k as int) =~= function.branches@);
    assert(out@ =~= old(out)@ + function_bytes(*function));
}

fn push_branch(out: &mut Vec<u8>, branch: &Branch)
    ensures
        final(out)@ == old(out)@ + branch_bytes(*branch),
    decreases branch,
{
    push_u64(out, branch.parameters.len() as u64);
    let ghost start = out@;
    let mut p: usize = 0;
    while p < branch.parameters.len()
        invariant
            p <= branch.parameters@.len(),
            out@ == start + patterns_bytes(branch.parameters@.take(p as int)),
        decreases branch.parameters@.len() - p,
    {
        match &branch.parameters[p] {
            Pattern::Identifier { name } => {
                out.push(0u8);
                push_text(out, name);
            },
            Pattern::Literal { value } => {
                out.push(1u8);
                push_u32(out, #[verifier::truncate] (*value as u32));
            },
        }
        proof {
            let taken = branch.parameters@.take(p + 1);
            assert(taken.drop_last() =~= branch.parameters@.take(p as int));
        }
        p = p + 1;
        assert(out@ =~= start + patterns_bytes(branch.parameters@.take(p as int)));
    }
    assert(branch.parameters@.take(p as int) =~= branch.parameters@);
    push_u64(out, branch.body.len() as u64);
    let ghost middle = out@;
    let mut j: usize = 0;
    while j < branch.body.len()
        invariant
            j <= branch.body@.len(),
            out@ == middle + members_bytes(branch.body@.take(j as int)),
        decreases branch.body@.len() - j,
    {
        let member = &branch.body[j];
        let ghost at_start = out@;
        push_u32(out, member.0.0);
        let ghost after_index = out@;
        match &member.1 {
            Expression::Comment { text } => {
                out.push(0u8);
                push_text(out, text);
            },
            Expression::Identifier { name } => {
                out.push(1u8);
                push_text(out, name);
            },
            Expression::LiteralNumber { value } => {
                out.push(2u8);
                push_u32(out, #[verifier::truncate] (*value as u32));
            },
            Expression::LocalFunction { function } => {
                out.push(3u8);
                proof {
                    assert(decreases_to!(*branch => branch.body@[j as int].1));
                }
                push_function(out, function);
            },
        }
        assert(out@ =~= after_index + member_bytes(member.1));
        proof {
            let taken = branch.body@.take(j + 1);
            assert(taken.subrange(0, taken.len() - 1) =~= branch.body@.take(j as int));
            assert(members_bytes(taken) =~= members_bytes(branch.body@.take(j as int)) + u32_bytes(
                member.0.0,
            ) + member_bytes(member.1));
        }
        j = j + 1;
        assert(out@ =~= middle + members_bytes(branch.body@.take(j as int)));
    }
    assert(branch.body@.take(j as int) =~= branch.body@);
    assert(out@ =~= old(out)@ + branch_bytes(*branch));
}

/// # The hash of a function
///
/// Two functions with the same content have the same hash.
pub fn hash_function(function: &Function) -> (result: crate::compiler::hash::Hash)
    ensures
        result.bytes() == function_hash(*function),
{
    let mut bytes: Vec<u8> = Vec::new();
    push_function(&mut bytes, function);
    assert(bytes@ =~= function_bytes(*function));
    crate::compiler::hash::Hash::new(bytes.as_slice())
}

/// # A function that is part of an update: its old or its new version
#[derive(Debug)]
pub struct FunctionInUpdate {
    pub index: FunctionIndexInRootContext,
    pub function: Function,
}

/// # A function update: the old version of a function, and the new one
#[derive(Debug)]
pub struct FunctionUpdate {
    pub old: FunctionInUpdate,
    pub new: FunctionInUpdate,
}

/// # The changes between two versions of the code
#[derive(Debug)]
pub struct Changes {
    /// # The functions that were added in the new version, by index
    pub added: Vec<(FunctionIndexInRootContext, Function)>,
    /// # The functions that were updated in the new version
    pub updated: Vec<FunctionUpdate>,
}

/// What detecting changes tracks: the old functions that no new one was
/// matched with yet, the added functions, and the updates
pub struct ChangesModel {
    pub remaining: Seq<(u32, Function)>,
    pub added: Seq<(u32, Function)>,
    pub updated: Seq<((u32, Function), (u32, Function))>,
}

/// Whether a function has the given name
pub open spec fn named_like(function: Function, other: Function) -> bool {
    function.name is Some && other.name is Some && function.name->0@ == other.name->0@
}

/// Where some old function has the same hash, the new function has not
/// changed. Else, where an old function has the same name, the new function
/// is an update of the first such one. Else, it was added.
pub open spec fn classify(m: ChangesModel, index: u32, function: Function) -> ChangesModel {
    if exists|k: int|
        0 <= k < m.remaining.len() && function_hash(#[trigger] m.remaining[k].1) == function_hash(
            function,
        ) {
        m
    } else if exists|k: int| 0 <= k < m.remaining.len() && named_like(#[trigger] m.remaining[k].1, function) {
        let k = choose|k: int|
            0 <= k < m.remaining.len() && named_like(m.remaining[k].1, function) && forall|j: int|
                0 <= j < k ==> !named_like(#[trigger] m.remaining[j].1, function);
        ChangesModel {
            remaining: m.remaining.remove(k),
            added: m.added,
            updated: m.updated.push((m.remaining[k], (index, function))),
        }
    } else {
        ChangesModel { remaining: m.remaining, added: m.added.push((index, function)), updated: m.updated }
    }
}

/// The changes, after classifying the new functions from the first on
pub open spec fn classify_all(m: ChangesModel, new: Seq<Function>) -> ChangesModel
    decreases new.len(),
{
    if new.len() == 0 {
        m
    } else {
        let i = new.len() - 1;
        classify(classify_all(m, new.drop_last()), i as u32, new[i])
    }
}

/// The old functions, with their indices
pub open spec fn indexed(functions: Seq<Function>) -> Seq<(u32, Function)> {
    Seq::new(functions.len(), |i: int| (i as u32, functions[i]))
}

/// The changes between the old functions and the new ones
pub open spec fn changes_between(old: Seq<Function>, new: Seq<Function>) -> ChangesModel {
    classify_all(ChangesModel { remaining: indexed(old), added: Seq::empty(), updated: Seq::empty() }, new)
}

/// Whether all functions have names
pub open spec fn all_named(functions: Seq<Function>) -> bool {
    forall|i: int| 0 <= i < functions.len() ==> (#[trigger] functions[i]).name is Some
}

impl Changes {
    /// The changes, as plain values
    pub open spec fn model(&self) -> (Seq<(u32, Function)>, Seq<((u32, Function), (u32, Function))>) {
        (
            self.added@.map_values(|a: (FunctionIndexInRootContext, Function)| (a.0.0, a.1)),
            self.updated@.map_values(
                |u: FunctionUpdate| ((u.old.index.0, u.old.function), (u.new.index.0, u.new.function)),
            ),
        )
    }
}

/// Classifying functions that are among the old ones changes nothing
proof fn lemma_classify_unchanged(old: Seq<Function>, n: int)
    requires
        0 <= n <= old.len(),
    ensures
        classify_all(
            ChangesModel { remaining: indexed(old), added: Seq::empty(), updated: Seq::empty() },
            old.take(n),
        ) == (ChangesModel { remaining: indexed(old), added: Seq::empty(), updated: Seq::empty() }),
    decreases n,
{
    let start = ChangesModel { remaining: indexed(old), added: Seq::empty(), updated: Seq::empty() };
    if n > 0 {
        let taken = old.take(n);
        assert(taken.drop_last() =~= old.take(n - 1));
        lemma_classify_unchanged(old, n - 1);
        assert(indexed(old)[n - 1].1 == taken[n - 1]);
        assert(function_hash(indexed(old)[n - 1].1) == function_hash(taken[n - 1]));
    } else {
        assert(old.take(n) =~= Seq::<Function>::empty());
    }
}

/// Code that did not change has no changes: no function was added, and none
/// was updated
pub proof fn lemma_same_code_has_no_changes(functions: Seq<Function>)
    ensures
        changes_between(functions, functions).added == Seq::<(u32, Function)>::empty(),
        changes_between(functions, functions).updated == Seq::<
            ((u32, Function), (u32, Function)),
        >::empty(),
{
    lemma_classify_unchanged(functions, functions.len() as int);
    assert(functions.take(functions.len() as int) =~= functions);
}

/// The old functions that no new one was matched with yet, as plain values
pub open spec fn remaining_model(
    remaining: Seq<(FunctionIndexInRootContext, Function, crate::compiler::hash::Hash)>,
) -> Seq<(u32, Function)> {
    remaining.map_values(
        |r: (FunctionIndexInRootContext, Function, crate::compiler::hash::Hash)| (r.0.0, r.1),
    )
}

/// Whether each old function is stored with its hash
pub open spec fn hashes_valid(
    remaining: Seq<(FunctionIndexInRootContext, Function, crate::compiler::hash::Hash)>,
) -> bool {
    forall|k: int| 0 <= k < remaining.len() ==> (#[trigger] remaining[k]).2.bytes() == function_hash(remaining[k].1)
}

/// The elements of a vector, in a queue
fn into_queue<T>(items: Vec<T>) -> (result: std::collections::VecDeque<T>)
    ensures
        result@ == items@,
{
    let ghost all_items = items@;
    let mut items = items;
    let mut queue: std::collections::VecDeque<T> = std::collections::VecDeque::new();
    while items.len() > 0
        invariant
            items@ + queue@ == all_items,
        decreases items@.len(),
    {
        let ghost before = items@;
        let ghost queued = queue@;
        match items.pop() {
            Some(item) => {
                queue.push_front(item);
                assert(before =~= items@.push(item));
                assert(items@ + queue@ =~= before + queued);
            },
            None => {},
        }
    }
    assert(items@ + queue@ =~= queue@);
    queue
}

/// Classify a new function, updating the old functions that are left and
/// the changes
fn classify_function(
    remaining: &mut Vec<(FunctionIndexInRootContext, Function, crate::compiler::hash::Hash)>,
    changes: &mut Changes,
    index: FunctionIndexInRootContext,
    function: Function,
)
    requires
        function.name is Some,
        hashes_valid(old(remaining)@),
    ensures
        hashes_valid(final(remaining)@),
        ({
            let m = classify(
                ChangesModel {
                    remaining: remaining_model(old(remaining)@),
                    added: old(changes).model().0,
                    updated: old(changes).model().1,
                },
                index.0,
                function,
            );
            &&& remaining_model(final(remaining)@) == m.remaining
            &&& final(changes).model() == (m.added, m.updated)
        }),
{
    let ghost rem = remaining_model(remaining@);
    let hash = hash_function(&function);
    let mut k: usize = 0;
    while k < remaining.len()
        invariant
            k <= remaining@.len(),
            hash.bytes() == function_hash(function),
            hashes_valid(remaining@),
            rem == remaining_model(remaining@),
            forall|j: int| 0 <= j < k ==> function_hash(#[trigger] rem[j].1) != function_hash(function),
        decreases remaining@.len() - k,
    {
        if remaining[k].2.same(&hash) {
            assert(rem[k as int].1 == remaining@[k as int].1);
            assert(function_hash(rem[k as int].1) == function_hash(function));
            return;
        }
        assert(rem[k as int].1 == remaining@[k as int].1);
        k = k + 1;
    }
    let mut found: Option<usize> = None;
    let mut k: usize = 0;
    while k < remaining.len()
        invariant
            k <= remaining@.len(),
            function.name is Some,
            rem == remaining_model(remaining@),
            found is None ==> forall|j: int| 0 <= j < k ==> !named_like(#[trigger] rem[j].1, function),
            match found {
                Some(f) => f < rem.len() && named_like(rem[f as int].1, function) && forall|j: int|
                    0 <= j < f ==> !named_like(#[trigger] rem[j].1, function),
                None => true,
            },
        decreases remaining@.len() - k,
    {
        if found.is_none() {
            let same_name = match (&remaining[k].1.name, &function.name) {
                (Some(a), Some(b)) => *a == *b,
                _ => false,
            };
            assert(rem[k as int].1 == remaining@[k as int].1);
            if same_name {
                found = Some(k);
            }
        }
        k = k + 1;
    }
    let ghost before_changes = changes.model();
    match found {
        Some(f) => {
            let (old_index, old_function, _) = remaining.remove(f);
            proof {
                let chosen = choose|j: int|
                    0 <= j < rem.len() && named_like(rem[j].1, function) && forall|i: int|
                        0 <= i < j ==> !named_like(#[trigger] rem[i].1, function);
                if chosen < f {
                    assert(!named_like(rem[chosen].1, function));
                } else if chosen > f {
                    assert(!named_like(rem[f as int].1, function));
                }
                assert(remaining_model(remaining@) =~= rem.remove(f as int));
            }
            changes.updated.push(
                FunctionUpdate {
                    old: FunctionInUpdate { index: old_index, function: old_function },
                    new: FunctionInUpdate { index, function },
                },
            );
            assert(changes.model().1 =~= before_changes.1.push((rem[f as int], (index.0, function))));
        },
        None => {
            changes.added.push((index, function));
            assert(changes.model().0 =~= before_changes.0.push((index.0, function)));
        },
    }
}

/// # Detect the changes between two versions of the named functions
///
/// A new function that has the same hash as an old one has not changed. One
/// that has the same name as an old one is an update of it. Any other was
/// added. All functions must have names.
pub fn detect_changes(old: Option<SyntaxTree>, new: SyntaxTree) -> (result: Changes)
    requires
        match old {
            Some(tree) => all_named(tree.named_functions@) && tree.named_functions@.len() <= u32::MAX,
            None => true,
        },
        all_named(new.named_functions@),
        new.named_functions@.len() <= u32::MAX,
    ensures
        ({
            let expected = changes_between(
                match old {
                    Some(tree) => tree.named_functions@,
                    None => Seq::empty(),
                },
                new.named_functions@,
            );
            result.model() == (expected.added, expected.updated)
        }),
{
    let ghost old_functions = match &old {
        Some(tree) => tree.named_functions@,
        None => Seq::<Function>::empty(),
    };
    let ghost new_functions = new.named_functions@;
    let mut remaining: Vec<(FunctionIndexInRootContext, Function, crate::compiler::hash::Hash)> = Vec::new();
    if let Some(tree) = old {
        let mut queue = into_queue(tree.named_functions);
        let total = queue.len();
        let mut i: usize = 0;
        while queue.len() > 0
            invariant
                i + queue@.len() == total,
                total == old_functions.len(),
                total <= u32::MAX,
                queue@ == old_functions.skip(i as int),
                remaining@.len() == i,
                hashes_valid(remaining@),
                remaining_model(remaining@) == indexed(old_functions).take(i as int),
            decreases queue@.len(),
        {
            let ghost before = queue@;
            let function = queue.pop_front().unwrap();
            proof {
                assert(before[0] == old_functions[i as int]);
                assert(queue@ =~= old_functions.skip(i + 1));
            }
            let hash = hash_function(&function);
            remaining.push((FunctionIndexInRootContext(i as u32), function, hash));
            i = i + 1;
            assert(remaining_model(remaining@) =~= indexed(old_functions).take(i as int));
        }
        assert(indexed(old_functions).take(i as int) =~= indexed(old_functions));
    } else {
        assert(remaining_model(remaining@) =~= indexed(old_functions));
    }
    let ghost start = ChangesModel {
        remaining: indexed(old_functions),
        added: Seq::empty(),
        updated: Seq::empty(),
    };
    let mut changes = Changes { added: Vec::new(), updated: Vec::new() };
    assert(changes.model().0 =~= Seq::<(u32, Function)>::empty());
    assert(changes.model().1 =~= Seq::<((u32, Function), (u32, Function))>::empty());
    let mut queue = into_queue(new.named_functions);
    let total = queue.len();
    let mut n: usize = 0;
    assert(new_functions.take(0) =~= Seq::<Function>::empty());
    while queue.len() > 0
        invariant
            n + queue@.len() == total,
            total == new_functions.len(),
            total <= u32::MAX,
            all_named(new_functions),
            queue@ == new_functions.skip(n as int),
            hashes_valid(remaining@),
            ({
                let m = classify_all(start, new_functions.take(n as int));
                &&& remaining_model(remaining@) == m.remaining
                &&& changes.model() == (m.added, m.updated)
            }),
        decreases queue@.len(),
    {
        let ghost before = queue@;
        let function = queue.pop_front().unwrap();
        proof {
            assert(before[0] == new_functions[n as int]);
            assert(queue@ =~= new_functions.skip(n + 1));
            let taken = new_functions.take(n + 1);
            assert(taken.drop_last() =~= new_functions.take(n as int));
            assert(taken[n as int] == new_functions[n as int]);
        }
        classify_function(&mut remaining, &mut changes, FunctionIndexInRootContext(n as u32), function);
        n = n + 1;
    }
    assert(new_functions.take(n as int) =~= new_functions);
    changes
}

/// Whether the lengths in a text fit the 64-bit numbers that encode them
pub open spec fn text_fits(text: Seq<char>) -> bool {
    text.len() <= u64::MAX
}

/// Two runs of bytes, each followed by more, that are equal and of equal
/// length: the runs are equal, and so is what follows
proof fn lemma_split(a: Seq<u8>, r1: Seq<u8>, b: Seq<u8>, r2: Seq<u8>)
    requires
        a + r1 == b + r2,
        a.len() == b.len(),
    ensures
        a == b,
        r1 == r2,
{
    assert(a =~= (a + r1).take(a.len() as int));
    assert(b =~= (b + r2).take(b.len() as int));
    assert(r1 =~= (a + r1).skip(a.len() as int));
    assert(r2 =~= (b + r2).skip(b.len() as int));
}

/// Distinct 32-bit numbers have distinct bytes
proof fn lemma_u32_bytes_injective(a: u32, b: u32)
    requires
        u32_bytes(a) == u32_bytes(b),
    ensures
        a == b,
{
    assert(u32_bytes(a)[0] == u32_bytes(b)[0]);
    assert(u32_bytes(a)[1] == u32_bytes(b)[1]);
    assert(u32_bytes(a)[2] == u32_bytes(b)[2]);
    assert(u32_bytes(a)[3] == u32_bytes(b)[3]);
    assert(a == b) by (bit_vector)
        requires
            (a & 0xff) as u8 == (b & 0xff) as u8,
            ((a >> 8u32) & 0xff) as u8 == ((b >> 8u32) & 0xff) as u8,
            ((a >> 16u32) & 0xff) as u8 == ((b >> 16u32) & 0xff) as u8,
            ((a >> 24u32) & 0xff) as u8 == ((b >> 24u32) & 0xff) as u8,
    ;
}

/// Distinct 64-bit numbers have distinct bytes
proof fn lemma_u64_bytes_injective(a: u64, b: u64)
    requires
        u64_bytes(a) == u64_bytes(b),
    ensures
        a == b,
{
    lemma_split(
        u32_bytes((a & 0xffff_ffff) as u32),
        u32_bytes((a >> 32u64) as u32),
        u32_bytes((b & 0xffff_ffff) as u32),
        u32_bytes((b >> 32u64) as u32),
    );
    lemma_u32_bytes_injective((a & 0xffff_ffff) as u32, (b & 0xffff_ffff) as u32);
    lemma_u32_bytes_injective((a >> 32u64) as u32, (b >> 32u64) as u32);
    assert(a == b) by (bit_vector)
        requires
            (a & 0xffff_ffff) as u32 == (b & 0xffff_ffff) as u32,
            (a >> 32u64) as u32 == (b >> 32u64) as u32,
    ;
}

/// The characters of a text take four bytes each
proof fn lemma_chars_bytes_len(text: Seq<char>)
    ensures
        chars_bytes(text).len() == 4 * text.len(),
    decreases text.len(),
{
    if text.len() > 0 {
        lemma_chars_bytes_len(text.drop_last());
    }
}

/// Texts of equal length with the same character bytes are equal
proof fn lemma_chars_bytes_injective(a: Seq<char>, b: Seq<char>)
    requires
        a.len() == b.len(),
        chars_bytes(a) == chars_bytes(b),
    ensures
        a == b,
    decreases a.len(),
{
    if a.len() > 0 {
        lemma_chars_bytes_len(a.drop_last());
        lemma_chars_bytes_len(b.drop_last());
        lemma_split(
            chars_bytes(a.drop_last()),
            u32_bytes(a.last() as u32),
            chars_bytes(b.drop_last()),
            u32_bytes(b.last() as u32),
        );
        lemma_chars_bytes_injective(a.drop_last(), b.drop_last());
        lemma_u32_bytes_injective(a.last() as u32, b.last() as u32);
        let x = a.last();
        let y = b.last();
        vstd::utf8::char_u32_cast(x, x as u32);
        vstd::utf8::char_u32_cast(y, y as u32);
        assert(x == y);
        assert(a.drop_last() == b.drop_last());
        assert(a =~= a.drop_last().push(a.last()));
        assert(b =~= b.drop_last().push(b.last()));
    } else {
        assert(a =~= b);
    }
}

/// A text's bytes, followed by more, determine the text and what follows
proof fn lemma_text_prefix(a: Seq<char>, r1: Seq<u8>, b: Seq<char>, r2: Seq<u8>)
    requires
        text_fits(a),
        text_fits(b),
        text_bytes(a) + r1 == text_bytes(b) + r2,
    ensures
        a == b,
        r1 == r2,
{
    assert(text_bytes(a) + r1 =~= u64_bytes(a.len() as u64) + (chars_bytes(a) + r1));
    assert(text_bytes(b) + r2 =~= u64_bytes(b.len() as u64) + (chars_bytes(b) + r2));
    lemma_split(u64_bytes(a.len() as u64), chars_bytes(a) + r1, u64_bytes(b.len() as u64), chars_bytes(b) + r2);
    lemma_u64_bytes_injective(a.len() as u64, b.len() as u64);
    lemma_chars_bytes_len(a);
    lemma_chars_bytes_len(b);
    lemma_split(chars_bytes(a), r1, chars_bytes(b), r2);
    lemma_chars_bytes_injective(a, b);
}

/// Whether the lengths in a pattern fit the numbers that encode them
pub open spec fn pattern_fits(pattern: Pattern) -> bool {
    match pattern {
        Pattern::Identifier { name } => text_fits(name@),
        Pattern::Literal { .. } => true,
    }
}

/// Whether the lengths in a member fit the numbers that encode them
pub open spec fn member_fits(member: Expression) -> bool
    decreases member,
{
    match member {
        Expression::Comment { text } => text_fits(text@),
        Expression::Identifier { name } => text_fits(name@),
        Expression::LiteralNumber { .. } => true,
        Expression::LocalFunction { function } => function_fits(function),
    }
}

/// Whether the lengths in members fit the numbers that encode them
pub open spec fn members_fit(members: Seq<(FragmentIndexInBranchBody, Expression)>) -> bool
    decreases members,
{
    if members.len() == 0 {
        true
    } else {
        member_fits(members[0].1) && members_fit(members.skip(1))
    }
}

/// Whether the lengths in a branch fit the numbers that encode them
pub open spec fn branch_fits(branch: Branch) -> bool
    decreases branch,
{
    &&& branch.parameters@.len() <= u64::MAX
    &&& branch.body@.len() <= u64::MAX
    &&& forall|i: int| 0 <= i < branch.parameters@.len() ==> pattern_fits(#[trigger] branch.parameters@[i])
    &&& members_fit(branch.body@)
}

/// Whether the lengths in branches fit the numbers that encode them
pub open spec fn branches_fit(branches: Seq<(BranchIndex, Branch)>) -> bool
    decreases branches,
{
    if branches.len() == 0 {
        true
    } else {
        branch_fits(branches[0].1) && branches_fit(branches.skip(1))
    }
}

/// Whether the lengths in a function fit the numbers that encode them: the
/// code of a program always does
pub open spec fn function_fits(function: Function) -> bool
    decreases function,
{
    &&& (match function.name {
        Some(name) => text_fits(name@),
        None => true,
    })
    &&& function.branches@.len() <= u64::MAX
    &&& branches_fit(function.branches@)
}

/// The bytes of patterns, from the first on
proof fn lemma_patterns_front(patterns: Seq<Pattern>)
    requires
        patterns.len() > 0,
    ensures
        patterns_bytes(patterns) == pattern_bytes(patterns[0]) + patterns_bytes(patterns.skip(1)),
    decreases patterns.len(),
{
    if patterns.len() == 1 {
        assert(patterns.drop_last() =~= Seq::<Pattern>::empty());
        assert(patterns.skip(1) =~= Seq::<Pattern>::empty());
        assert(patterns_bytes(patterns) =~= pattern_bytes(patterns[0]) + patterns_bytes(patterns.skip(1)));
    } else {
        let shorter = patterns.drop_last();
        lemma_patterns_front(shorter);
        assert(shorter.skip(1) =~= patterns.skip(1).drop_last());
        assert(patterns.skip(1).last() == patterns.last());
        assert(patterns_bytes(patterns) =~= pattern_bytes(patterns[0]) + patterns_bytes(patterns.skip(1)));
    }
}

/// The bytes of members, from the first on
proof fn lemma_members_front(members: Seq<(FragmentIndexInBranchBody, Expression)>)
    requires
        members.len() > 0,
    ensures
        members_bytes(members) == u32_bytes(members[0].0.0) + member_bytes(members[0].1) + members_bytes(
            members.skip(1),
        ),
    decreases members.len(),
{
    let n = members.len();
    if n == 1 {
        assert(members.subrange(0, 0) =~= Seq::<(FragmentIndexInBranchBody, Expression)>::empty());
        assert(members.skip(1) =~= Seq::<(FragmentIndexInBranchBody, Expression)>::empty());
        assert(members_bytes(members) =~= u32_bytes(members[0].0.0) + member_bytes(members[0].1)
            + members_bytes(members.skip(1)));
    } else {
        let shorter = members.subrange(0, n - 1);
        lemma_members_front(shorter);
        assert(shorter.skip(1) =~= members.skip(1).subrange(0, n - 2));
        assert(members.skip(1).last() == members.last());
        assert(shorter[0] == members[0]);
        assert(members_bytes(members) =~= u32_bytes(members[0].0.0) + member_bytes(members[0].1)
            + members_bytes(members.skip(1)));
    }
}

/// The bytes of branches, from the first on
proof fn lemma_branches_front(branches: Seq<(BranchIndex, Branch)>)
    requires
        branches.len() > 0,
    ensures
        branches_bytes(branches) == u32_bytes(branches[0].0.0) + branch_bytes(branches[0].1) + branches_bytes(
            branches.skip(1),
        ),
    decreases branches.len(),
{
    let n = branches.len();
    if n == 1 {
        assert(branches.subrange(0, 0) =~= Seq::<(BranchIndex, Branch)>::empty());
        assert(branches.skip(1) =~= Seq::<(BranchIndex, Branch)>::empty());
        assert(branches_bytes(branches) =~= u32_bytes(branches[0].0.0) + branch_bytes(branches[0].1)
            + branches_bytes(branches.skip(1)));
    } else {
        let shorter = branches.subrange(0, n - 1);
        lemma_branches_front(shorter);
        assert(shorter.skip(1) =~= branches.skip(1).subrange(0, n - 2));
        assert(branches.skip(1).last() == branches.last());
        assert(shorter[0] == branches[0]);
        assert(branches_bytes(branches) =~= u32_bytes(branches[0].0.0) + branch_bytes(branches[0].1)
            + branches_bytes(branches.skip(1)));
    }
}

/// A tag byte, followed by more, determines the tag and what follows
proof fn lemma_tag(t1: u8, s1: Seq<u8>, t2: u8, s2: Seq<u8>)
    requires
        seq![t1] + s1 == seq![t2] + s2,
    ensures
        t1 == t2,
        s1 == s2,
{
    lemma_split(seq![t1], s1, seq![t2], s2);
    assert(seq![t1][0] == seq![t2][0]);
}

/// A 32-bit number's bytes, followed by more, determine the number and what
/// follows
proof fn lemma_u32_prefix(a: u32, r1: Seq<u8>, b: u32, r2: Seq<u8>)
    requires
        u32_bytes(a) + r1 == u32_bytes(b) + r2,
    ensures
        a == b,
        r1 == r2,
{
    lemma_split(u32_bytes(a), r1, u32_bytes(b), r2);
    lemma_u32_bytes_injective(a, b);
}

/// A 64-bit number's bytes, followed by more, determine the number and what
/// follows
proof fn lemma_u64_prefix(a: u64, r1: Seq<u8>, b: u64, r2: Seq<u8>)
    requires
        u64_bytes(a) + r1 == u64_bytes(b) + r2,
    ensures
        a == b,
        r1 == r2,
{
    lemma_split(u64_bytes(a), r1, u64_bytes(b), r2);
    lemma_u64_bytes_injective(a, b);
}

/// Distinct 32-bit signed numbers have distinct bytes
proof fn lemma_i32_u32_injective(a: i32, b: i32)
    requires
        a as u32 == b as u32,
    ensures
        a == b,
{
    assert(a == b) by (bit_vector)
        requires
            a as u32 == b as u32,
    ;
}

/// A pattern's bytes, followed by more, determine its token and what follows
#[verifier::spinoff_prover]
#[verifier::rlimit(60)]
proof fn lemma_pattern_prefix(a: Pattern, r1: Seq<u8>, b: Pattern, r2: Seq<u8>)
    requires
        pattern_fits(a),
        pattern_fits(b),
        pattern_bytes(a) + r1 == pattern_bytes(b) + r2,
    ensures
        pattern_token(a) == pattern_token(b),
        r1 == r2,
{
    match (a, b) {
        (Pattern::Identifier { name: x }, Pattern::Identifier { name: y }) => {
            assert(pattern_bytes(a) + r1 =~= seq![0u8] + (text_bytes(x@) + r1));
            assert(pattern_bytes(b) + r2 =~= seq![0u8] + (text_bytes(y@) + r2));
            lemma_tag(0u8, text_bytes(x@) + r1, 0u8, text_bytes(y@) + r2);
            lemma_text_prefix(x@, r1, y@, r2);
        },
        (Pattern::Literal { value: x }, Pattern::Literal { value: y }) => {
            assert(pattern_bytes(a) + r1 =~= seq![1u8] + (u32_bytes(x as u32) + r1));
            assert(pattern_bytes(b) + r2 =~= seq![1u8] + (u32_bytes(y as u32) + r2));
            lemma_tag(1u8, u32_bytes(x as u32) + r1, 1u8, u32_bytes(y as u32) + r2);
            lemma_u32_prefix(x as u32, r1, y as u32, r2);
            lemma_i32_u32_injective(x, y);
        },
        (Pattern::Identifier { name: x }, Pattern::Literal { value: y }) => {
            assert(pattern_bytes(a) + r1 =~= seq![0u8] + (text_bytes(x@) + r1));
            assert(pattern_bytes(b) + r2 =~= seq![1u8] + (u32_bytes(y as u32) + r2));
            lemma_tag(0u8, text_bytes(x@) + r1, 1u8, u32_bytes(y as u32) + r2);
        },
        (Pattern::Literal { value: x }, Pattern::Identifier { name: y }) => {
            assert(pattern_bytes(a) + r1 =~= seq![1u8] + (u32_bytes(x as u32) + r1));
            assert(pattern_bytes(b) + r2 =~= seq![0u8] + (text_bytes(y@) + r2));
            lemma_tag(1u8, u32_bytes(x as u32) + r1, 0u8, text_bytes(y@) + r2);
        },
    }
}

/// The bytes of patterns, followed by more, determine their tokens and what
/// follows
#[verifier::spinoff_prover]
#[verifier::rlimit(60)]
proof fn lemma_patterns_prefix(a: Seq<Pattern>, r1: Seq<u8>, b: Seq<Pattern>, r2: Seq<u8>)
    requires
        a.len() == b.len(),
        forall|i: int| 0 <= i < a.len() ==> pattern_fits(#[trigger] a[i]),
        forall|i: int| 0 <= i < b.len() ==> pattern_fits(#[trigger] b[i]),
        patterns_bytes(a) + r1 == patterns_bytes(b) + r2,
    ensures
        patterns_tokens(a) == patterns_tokens(b),
        r1 == r2,
    decreases a.len(),
{
    if a.len() == 0 {
        assert(patterns_bytes(a) + r1 =~= r1);
        assert(patterns_bytes(b) + r2 =~= r2);
        assert(patterns_tokens(a) =~= patterns_tokens(b));
    } else {
        lemma_patterns_front(a);
        lemma_patterns_front(b);
        let (ta, tb) = (a.skip(1), b.skip(1));
        assert(patterns_bytes(a) + r1 =~= pattern_bytes(a[0]) + (patterns_bytes(ta) + r1));
        assert(patterns_bytes(b) + r2 =~= pattern_bytes(b[0]) + (patterns_bytes(tb) + r2));
        lemma_pattern_prefix(a[0], patterns_bytes(ta) + r1, b[0], patterns_bytes(tb) + r2);
        assert forall|i: int| 0 <= i < ta.len() implies pattern_fits(#[trigger] ta[i]) by {
            assert(ta[i] == a[i + 1]);
        }
        assert forall|i: int| 0 <= i < tb.len() implies pattern_fits(#[trigger] tb[i]) by {
            assert(tb[i] == b[i + 1]);
        }
        lemma_patterns_prefix(ta, r1, tb, r2);
        assert forall|i: int| 0 <= i < a.len() implies #[trigger] patterns_tokens(a)[i]
            == patterns_tokens(b)[i] by {
            if i > 0 {
                assert(ta[i - 1] == a[i]);
                assert(tb[i - 1] == b[i]);
                assert(patterns_tokens(ta)[i - 1] == patterns_tokens(tb)[i - 1]);
            }
        }
        assert(patterns_tokens(a) =~= patterns_tokens(b));
    }
}

/// Members that agree one by one are the same members
proof fn lemma_same_members_pointwise(
    a: Seq<(FragmentIndexInBranchBody, Expression)>,
    b: Seq<(FragmentIndexInBranchBody, Expression)>,
)
    requires
        a.len() == b.len(),
        forall|i: int| 0 <= i < a.len() ==> #[trigger] a[i].0 == b[i].0 && same_member(a[i].1, b[i].1),
    ensures
        same_members(a, b),
    decreases a.len(),
{
    if a.len() > 0 {
        let n = a.len() - 1;
        let (sa, sb) = (a.subrange(0, n), b.subrange(0, n));
        assert forall|i: int| 0 <= i < sa.len() implies #[trigger] sa[i].0 == sb[i].0 && same_member(
            sa[i].1,
            sb[i].1,
        ) by {
            assert(sa[i] == a[i]);
            assert(sb[i] == b[i]);
        }
        lemma_same_members_pointwise(sa, sb);
        assert(a[n].0 == b[n].0);
    }
}

/// Branches that agree one by one are the same branches
proof fn lemma_same_branches_pointwise(a: Seq<(BranchIndex, Branch)>, b: Seq<(BranchIndex, Branch)>)
    requires
        a.len() == b.len(),
        forall|i: int| 0 <= i < a.len() ==> #[trigger] a[i].0 == b[i].0 && same_branch(a[i].1, b[i].1),
    ensures
        same_branches(a, b),
    decreases a.len(),
{
    if a.len() > 0 {
        let n = a.len() - 1;
        let (sa, sb) = (a.subrange(0, n), b.subrange(0, n));
        assert forall|i: int| 0 <= i < sa.len() implies #[trigger] sa[i].0 == sb[i].0 && same_branch(
            sa[i].1,
            sb[i].1,
        ) by {
            assert(sa[i] == a[i]);
            assert(sb[i] == b[i]);
        }
        lemma_same_branches_pointwise(sa, sb);
        assert(a[n].0 == b[n].0);
    }
}

/// The bytes of a function's name, followed by more, determine the name and
/// what follows
#[verifier::spinoff_prover]
#[verifier::rlimit(60)]
proof fn lemma_name_prefix(a: Option<String>, r1: Seq<u8>, b: Option<String>, r2: Seq<u8>)
    requires
        a is Some ==> text_fits(a->0@),
        b is Some ==> text_fits(b->0@),
        name_bytes(a) + r1 == name_bytes(b) + r2,
    ensures
        (a is Some) == (b is Some),
        a is Some ==> a->0@ == b->0@,
        r1 == r2,
{
    match (a, b) {
        (Some(x), Some(y)) => {
            assert(name_bytes(a) + r1 =~= seq![1u8] + (text_bytes(x@) + r1));
            assert(name_bytes(b) + r2 =~= seq![1u8] + (text_bytes(y@) + r2));
            lemma_tag(1u8, text_bytes(x@) + r1, 1u8, text_bytes(y@) + r2);
            lemma_text_prefix(x@, r1, y@, r2);
        },
        (None, None) => {
            assert(name_bytes(a) + r1 =~= seq![0u8] + r1);
            assert(name_bytes(b) + r2 =~= seq![0u8] + r2);
            lemma_tag(0u8, r1, 0u8, r2);
        },
        (Some(x), None) => {
            assert(name_bytes(a) + r1 =~= seq![1u8] + (text_bytes(x@) + r1));
            assert(name_bytes(b) + r2 =~= seq![0u8] + r2);
            lemma_tag(1u8, text_bytes(x@) + r1, 0u8, r2);
        },
        (None, Some(y)) => {
            assert(name_bytes(a) + r1 =~= seq![0u8] + r1);
            assert(name_bytes(b) + r2 =~= seq![1u8] + (text_bytes(y@) + r2));
            lemma_tag(0u8, r1, 1u8, text_bytes(y@) + r2);
        },
    }
}

/// A member's bytes, followed by more, determine the member and what follows
#[verifier::spinoff_prover]
#[verifier::rlimit(60)]
proof fn lemma_member_prefix(a: Expression, r1: Seq<u8>, b: Expression, r2: Seq<u8>)
    requires
        member_fits(a),
        member_fits(b),
        member_bytes(a) + r1 == member_bytes(b) + r2,
    ensures
        same_member(a, b),
        r1 == r2,
    decreases a,
{
    let (ta, sa): (u8, Seq<u8>) = match a {
        Expression::Comment { text } => (0u8, text_bytes(text@)),
        Expression::Identifier { name } => (1u8, text_bytes(name@)),
        Expression::LiteralNumber { value } => (2u8, u32_bytes(value as u32)),
        Expression::LocalFunction { function } => (3u8, function_bytes(function)),
    };
    let (tb, sb): (u8, Seq<u8>) = match b {
        Expression::Comment { text } => (0u8, text_bytes(text@)),
        Expression::Identifier { name } => (1u8, text_bytes(name@)),
        Expression::LiteralNumber { value } => (2u8, u32_bytes(value as u32)),
        Expression::LocalFunction { function } => (3u8, function_bytes(function)),
    };
    assert(member_bytes(a) + r1 =~= seq![ta] + (sa + r1));
    assert(member_bytes(b) + r2 =~= seq![tb] + (sb + r2));
    lemma_tag(ta, sa + r1, tb, sb + r2);
    match (a, b) {
        (Expression::Comment { text: x }, Expression::Comment { text: y }) => {
            lemma_text_prefix(x@, r1, y@, r2);
        },
        (Expression::Identifier { name: x }, Expression::Identifier { name: y }) => {
            lemma_text_prefix(x@, r1, y@, r2);
        },
        (Expression::LiteralNumber { value: x }, Expression::LiteralNumber { value: y }) => {
            lemma_u32_prefix(x as u32, r1, y as u32, r2);
            lemma_i32_u32_injective(x, y);
        },
        (Expression::LocalFunction { function: f }, Expression::LocalFunction { function: g }) => {
            lemma_function_prefix(f, r1, g, r2);
        },
        _ => {},
    }
}

/// The bytes of members, followed by more, determine the members one by one
/// and what follows
#[verifier::spinoff_prover]
#[verifier::rlimit(60)]
proof fn lemma_members_prefix(
    a: Seq<(FragmentIndexInBranchBody, Expression)>,
    r1: Seq<u8>,
    b: Seq<(FragmentIndexInBranchBody, Expression)>,
    r2: Seq<u8>,
)
    requires
        a.len() == b.len(),
        members_fit(a),
        members_fit(b),
        members_bytes(a) + r1 == members_bytes(b) + r2,
    ensures
        forall|i: int| 0 <= i < a.len() ==> #[trigger] a[i].0 == b[i].0 && same_member(a[i].1, b[i].1),
        r1 == r2,
    decreases a,
{
    if a.len() == 0 {
        assert(members_bytes(a) + r1 =~= r1);
        assert(members_bytes(b) + r2 =~= r2);
    } else {
        lemma_members_front(a);
        lemma_members_front(b);
        let (ta, tb) = (a.skip(1), b.skip(1));
        let (ra, rb) = (member_bytes(a[0].1) + (members_bytes(ta) + r1), member_bytes(b[0].1) + (
        members_bytes(tb) + r2));
        assert(members_bytes(a) + r1 =~= u32_bytes(a[0].0.0) + ra);
        assert(members_bytes(b) + r2 =~= u32_bytes(b[0].0.0) + rb);
        lemma_u32_prefix(a[0].0.0, ra, b[0].0.0, rb);
        lemma_member_prefix(a[0].1, members_bytes(ta) + r1, b[0].1, members_bytes(tb) + r2);
        lemma_members_prefix(ta, r1, tb, r2);
        assert forall|i: int| 0 <= i < a.len() implies #[trigger] a[i].0 == b[i].0 && same_member(
            a[i].1,
            b[i].1,
        ) by {
            if i > 0 {
                assert(ta[i - 1] == a[i]);
                assert(tb[i - 1] == b[i]);
            }
        }
    }
}

/// A branch's bytes, followed by more, determine the branch and what follows
#[verifier::spinoff_prover]
#[verifier::rlimit(60)]
proof fn lemma_branch_prefix(a: Branch, r1: Seq<u8>, b: Branch, r2: Seq<u8>)
    requires
        branch_fits(a),
        branch_fits(b),
        branch_bytes(a) + r1 == branch_bytes(b) + r2,
    ensures
        same_branch(a, b),
        r1 == r2,
    decreases a,
{
    let (pa, pb) = (a.parameters@, b.parameters@);
    let (ba, bb) = (a.body@, b.body@);
    let ra = members_bytes(ba) + r1;
    let rb = members_bytes(bb) + r2;
    let qa = patterns_bytes(pa) + (u64_bytes(ba.len() as u64) + ra);
    let qb = patterns_bytes(pb) + (u64_bytes(bb.len() as u64) + rb);
    assert(branch_bytes(a) + r1 =~= u64_bytes(pa.len() as u64) + qa);
    assert(branch_bytes(b) + r2 =~= u64_bytes(pb.len() as u64) + qb);
    lemma_u64_prefix(pa.len() as u64, qa, pb.len() as u64, qb);
    lemma_patterns_prefix(pa, u64_bytes(ba.len() as u64) + ra, pb, u64_bytes(bb.len() as u64) + rb);
    lemma_u64_prefix(ba.len() as u64, ra, bb.len() as u64, rb);
    lemma_members_prefix(ba, r1, bb, r2);
    lemma_same_members_pointwise(ba, bb);
}

/// The bytes of branches, followed by more, determine the branches one by
/// one and what follows
#[verifier::spinoff_prover]
#[verifier::rlimit(60)]
proof fn lemma_branches_prefix(
    a: Seq<(BranchIndex, Branch)>,
    r1: Seq<u8>,
    b: Seq<(BranchIndex, Branch)>,
    r2: Seq<u8>,
)
    requires
        a.len() == b.len(),
        branches_fit(a),
        branches_fit(b),
        branches_bytes(a) + r1 == branches_bytes(b) + r2,
    ensures
        forall|i: int| 0 <= i < a.len() ==> #[trigger] a[i].0 == b[i].0 && same_branch(a[i].1, b[i].1),
        r1 == r2,
    decreases a,
{
    if a.len() == 0 {
        assert(branches_bytes(a) + r1 =~= r1);
        assert(branches_bytes(b) + r2 =~= r2);
    } else {
        lemma_branches_front(a);
        lemma_branches_front(b);
        let (ta, tb) = (a.skip(1), b.skip(1));
        let (ra, rb) = (branch_bytes(a[0].1) + (branches_bytes(ta) + r1), branch_bytes(b[0].1) + (
        branches_bytes(tb) + r2));
        assert(branches_bytes(a) + r1 =~= u32_bytes(a[0].0.0) + ra);
        assert(branches_bytes(b) + r2 =~= u32_bytes(b[0].0.0) + rb);
        lemma_u32_prefix(a[0].0.0, ra, b[0].0.0, rb);
        lemma_branch_prefix(a[0].1, branches_bytes(ta) + r1, b[0].1, branches_bytes(tb) + r2);
        lemma_branches_prefix(ta, r1, tb, r2);
        assert forall|i: int| 0 <= i < a.len() implies #[trigger] a[i].0 == b[i].0 && same_branch(
            a[i].1,
            b[i].1,
        ) by {
            if i > 0 {
                assert(ta[i - 1] == a[i]);
                assert(tb[i - 1] == b[i]);
            }
        }
    }
}

/// A function's bytes, followed by more, determine the function and what
/// follows
#[verifier::spinoff_prover]
#[verifier::rlimit(60)]
proof fn lemma_function_prefix(a: Function, r1: Seq<u8>, b: Function, r2: Seq<u8>)
    requires
        function_fits(a),
        function_fits(b),
        function_bytes(a) + r1 == function_bytes(b) + r2,
    ensures
        same_function(a, b),
        r1 == r2,
    decreases a,
{
    let (ba, bb) = (a.branches@, b.branches@);
    let (ra, rb) = (branches_bytes(ba) + r1, branches_bytes(bb) + r2);
    let (qa, qb) = (u64_bytes(ba.len() as u64) + ra, u64_bytes(bb.len() as u64) + rb);
    assert(function_bytes(a) + r1 =~= name_bytes(a.name) + qa);
    assert(function_bytes(b) + r2 =~= name_bytes(b.name) + qb);
    lemma_name_prefix(a.name, qa, b.name, qb);
    lemma_u64_prefix(ba.len() as u64, ra, bb.len() as u64, rb);
    lemma_branches_prefix(ba, r1, bb, r2);
    lemma_same_branches_pointwise(ba, bb);
}

/// The bytes that encode a function, which its hash digests, tell it apart
/// from every other function: two functions with the same bytes are the
/// same function, down to the names and comments in their bodies
pub proof fn law_function_encoding_is_injective(f: Function, g: Function)
    requires
        function_fits(f),
        function_fits(g),
        function_bytes(f) == function_bytes(g),
    ensures
        same_function(f, g),
{
    assert(function_bytes(f) + Seq::<u8>::empty() =~= function_bytes(g) + Seq::<u8>::empty());
    lemma_function_prefix(f, Seq::empty(), g, Seq::empty());
}

/// Where some old function is named like the new one, there is a first such
/// one
proof fn lemma_first_named_like(remaining: Seq<(u32, Function)>, function: Function, n: int)
    requires
        0 <= n <= remaining.len(),
        exists|k: int| 0 <= k < n && named_like(#[trigger] remaining[k].1, function),
    ensures
        exists|k: int|
            0 <= k < remaining.len() && named_like(remaining[k].1, function) && forall|j: int|
                0 <= j < k ==> !named_like(#[trigger] remaining[j].1, function),
    decreases n,
{
    if exists|k: int| 0 <= k < n - 1 && named_like(#[trigger] remaining[k].1, function) {
        lemma_first_named_like(remaining, function, n - 1);
    } else {
        assert(named_like(remaining[n - 1].1, function));
    }
}

/// Every update that detecting changes reports pairs an old function with a
/// new one of the same name and a different hash
pub proof fn law_updates_pair_functions_of_one_name(old: Seq<Function>, new: Seq<Function>)
    ensures
        forall|j: int|
            0 <= j < changes_between(old, new).updated.len() ==> {
                let u = #[trigger] changes_between(old, new).updated[j];
                &&& named_like(u.0.1, u.1.1)
                &&& function_hash(u.0.1) != function_hash(u.1.1)
            },
    decreases new.len(),
{
    if new.len() > 0 {
        let i = new.len() - 1;
        law_updates_pair_functions_of_one_name(old, new.drop_last());
        let m = changes_between(old, new.drop_last());
        assert(changes_between(old, new) == classify(m, i as u32, new[i]));
        let function = new[i];
        if !(exists|k: int|
            0 <= k < m.remaining.len() && function_hash(#[trigger] m.remaining[k].1) == function_hash(
                function,
            )) && exists|k: int|
            0 <= k < m.remaining.len() && named_like(#[trigger] m.remaining[k].1, function) {
            lemma_first_named_like(m.remaining, function, m.remaining.len() as int);
            let k = choose|k: int|
                0 <= k < m.remaining.len() && named_like(m.remaining[k].1, function) && forall|j: int|
                    0 <= j < k ==> !named_like(#[trigger] m.remaining[j].1, function);
            let n = changes_between(old, new);
            assert(n.updated == m.updated.push((m.remaining[k], (i as u32, function))));
            assert forall|j: int| 0 <= j < n.updated.len() implies {
                let u = #[trigger] n.updated[j];
                &&& named_like(u.0.1, u.1.1)
                &&& function_hash(u.0.1) != function_hash(u.1.1)
            } by {
                if j < m.updated.len() {
                    assert(n.updated[j] == m.updated[j]);
                }
            }
        }
    }
}

/// In the code that comes first, with no old code before it, every function
/// was added, and none was updated
pub proof fn law_first_code_adds_every_function(new: Seq<Function>)
    requires
        new.len() <= u32::MAX,
    ensures
        changes_between(Seq::empty(), new).added == indexed(new),
        changes_between(Seq::empty(), new).updated.len() == 0,
        changes_between(Seq::empty(), new).remaining.len() == 0,
    decreases new.len(),
{
    if new.len() == 0 {
        assert(indexed(new) =~= Seq::<(u32, Function)>::empty());
        assert(indexed(Seq::<Function>::empty()) =~= Seq::<(u32, Function)>::empty());
    } else {
        let i = new.len() - 1;
        law_first_code_adds_every_function(new.drop_last());
        assert(indexed(Seq::<Function>::empty()) =~= Seq::<(u32, Function)>::empty());
        assert(changes_between(Seq::empty(), new) == classify(
            changes_between(Seq::empty(), new.drop_last()),
            i as u32,
            new[i],
        ));
        assert(indexed(new) =~= indexed(new.drop_last()).push((i as u32, new[i])));
    }
}

/// A function whose body was edited, so that its hash changed, is an update
/// of the old version of that name; nothing was added
pub proof fn law_edited_function_is_an_update(old_function: Function, new_function: Function)
    requires
        named_like(old_function, new_function),
        function_hash(old_function) != function_hash(new_function),
    ensures
        changes_between(seq![old_function], seq![new_function]).updated == seq![
            ((0u32, old_function), (0u32, new_function)),
        ],
        changes_between(seq![old_function], seq![new_function]).added.len() == 0,
{
    let old = seq![old_function];
    let new = seq![new_function];
    let start = ChangesModel { remaining: indexed(old), added: Seq::empty(), updated: Seq::empty() };
    assert(new.drop_last() =~= Seq::<Function>::empty());
    assert(classify_all(start, new.drop_last()) == start);
    assert(new[0] == new_function);
    assert(classify_all(start, new) == classify(start, 0u32, new_function));
    assert(indexed(old)[0] == (0u32, old_function));
    assert(named_like(start.remaining[0].1, new_function));
    lemma_first_named_like(start.remaining, new_function, 1);
}

} // verus!
