//! Generating instructions from the fragments of a function's branches.
//!
//! Functions are compiled from the leaves of the call graph up, so the
//! function that a non-recursive call refers to is already compiled. A
//! recursive call, or an anonymous function, gets a placeholder, to be
//! replaced once what it refers to is compiled.

use std::collections::VecDeque;

use vstd::prelude::*;

use crate::compiler::call_graph::Cluster;
use crate::compiler::changes::{function_hash, hash_function};
use crate::compiler::fragments::FunctionIndexInCluster;
use crate::compiler::intrinsics::IntrinsicFunction;
use crate::compiler::location::{FunctionLocation, MemberLocation};
use crate::compiler::source_map::{calls_after_recording, SourceMap};
use crate::compiler::syntax::Function;
use crate::compiler::table::Table;
use crate::data_stack::Value;
use crate::program::InstructionAddress;

verus! {

/// # An effect that an instruction triggers
#[derive(Clone, Copy, Debug, PartialEq, Eq, Structural)]
pub enum Effect {
    Breakpoint,
    BuildError,
    CompilerBug,
    Host,
}

/// # A parameter of a compiled branch
#[derive(Debug)]
pub enum RuntimePattern {
    Identifier { name: String },
    Literal { value: i32 },
}

/// # A compiled branch: its parameters, and the address of its first
/// instruction
#[derive(Debug)]
pub struct RuntimeBranch {
    pub parameters: Vec<RuntimePattern>,
    pub start: InstructionAddress,
}

/// # A compiled function
#[derive(Debug)]
pub struct RuntimeFunction {
    pub branches: Vec<RuntimeBranch>,
}

/// What a compiled branch holds
pub open spec fn branch_view(branch: RuntimeBranch) -> (Seq<RuntimePattern>, InstructionAddress) {
    (branch.parameters@, branch.start)
}

/// What a compiled function holds
pub open spec fn function_view(function: RuntimeFunction) -> Seq<(Seq<RuntimePattern>, InstructionAddress)> {
    function.branches@.map_values(|branch: RuntimeBranch| branch_view(branch))
}

/// # An instruction
#[derive(Debug)]
pub enum Instruction {
    AddS8,
    AddS32,
    AddU8,
    AddU8Wrap,
    BindingEvaluate { name: String },
    CallFunction { function: RuntimeFunction, is_tail_call: bool },
    ConvertS32ToS8,
    Copy,
    DivS32,
    DivU8,
    Drop,
    Eq,
    Eval { is_tail_call: bool },
    GreaterS8,
    GreaterS32,
    GreaterU8,
    LogicalAnd,
    LogicalNot,
    MulS32,
    MulU8Wrap,
    NegS32,
    Nop,
    Push { value: Value },
    RemainderS32,
    Return,
    SubS32,
    SubU8,
    SubU8Wrap,
    TriggerEffect { effect: Effect },
}

/// # A fragment of a branch body, with its calls resolved
#[derive(Debug)]
pub enum Fragment {
    CallToHostFunction { effect_number: u8 },
    CallToIntrinsicFunction { intrinsic: IntrinsicFunction, is_tail_call: bool },
    CallToUserDefinedFunction { hash: crate::compiler::hash::Hash, is_tail_call: bool },
    CallToUserDefinedFunctionRecursive { index: FunctionIndexInCluster, is_tail_call: bool },
    Comment { text: String },
    Function { function: Function },
    ResolvedBinding { name: String },
    UnresolvedIdentifier { name: String },
    Value(Value),
}

/// # A recursive call, to be filled in once its callee is compiled
#[derive(Clone, Copy, Debug, PartialEq, Eq, Structural)]
pub struct CallToFunction {
    pub address: InstructionAddress,
    pub is_tail_call: bool,
}

/// # A function to compile, once the current one is done
#[derive(Debug)]
pub struct FunctionToCompile {
    pub function: Function,
    pub location: FunctionLocation,
    /// The placeholder to replace with the instruction that makes the
    /// anonymous function
    pub address_of_instruction_to_make_anon_function: Option<InstructionAddress>,
}

/// # What the compilation of a cluster keeps track of
#[derive(Debug)]
pub struct ClusterContext {
    /// The placeholders of the recursive calls to each function
    pub recursive_calls_by_callee: Table<crate::compiler::hash::Hash, Vec<CallToFunction>>,
    pub queue_of_functions_to_compile: VecDeque<FunctionToCompile>,
}

/// # What the compilation of the named functions keeps track of
#[derive(Debug)]
pub struct NamedFunctionsContext {
    pub instructions: Vec<Instruction>,
    pub source_map: SourceMap,
    pub compiled_functions_by_hash: Table<crate::compiler::hash::Hash, RuntimeFunction>,
    pub named_functions: Vec<Function>,
}

/// The recursive calls of each function, viewed as sequences
pub open spec fn recursive_calls(context: ClusterContext) -> Map<crate::compiler::hash::Hash, Seq<CallToFunction>> {
    context.recursive_calls_by_callee.view().map_values(|calls: Vec<CallToFunction>| calls@)
}

/// The instruction that an intrinsic function compiles to
pub open spec fn intrinsic_instruction(intrinsic: IntrinsicFunction, is_tail_call: bool) -> Instruction {
    match intrinsic {
        IntrinsicFunction::AddS8 => Instruction::AddS8,
        IntrinsicFunction::AddS32 => Instruction::AddS32,
        IntrinsicFunction::AddU8 => Instruction::AddU8,
        IntrinsicFunction::AddU8Wrap => Instruction::AddU8Wrap,
        IntrinsicFunction::And => Instruction::LogicalAnd,
        IntrinsicFunction::Brk => Instruction::TriggerEffect { effect: Effect::Breakpoint },
        IntrinsicFunction::Copy => Instruction::Copy,
        IntrinsicFunction::DivS32 => Instruction::DivS32,
        IntrinsicFunction::DivU8 => Instruction::DivU8,
        IntrinsicFunction::Drop => Instruction::Drop,
        IntrinsicFunction::Eq => Instruction::Eq,
        IntrinsicFunction::Eval => Instruction::Eval { is_tail_call },
        IntrinsicFunction::GreaterS8 => Instruction::GreaterS8,
        IntrinsicFunction::GreaterS32 => Instruction::GreaterS32,
        IntrinsicFunction::GreaterU8 => Instruction::GreaterU8,
        IntrinsicFunction::MulS32 => Instruction::MulS32,
        IntrinsicFunction::MulU8Wrap => Instruction::MulU8Wrap,
        IntrinsicFunction::NegS32 => Instruction::NegS32,
        IntrinsicFunction::Nop => Instruction::Nop,
        IntrinsicFunction::Not => Instruction::LogicalNot,
        IntrinsicFunction::RemainderS32 => Instruction::RemainderS32,
        IntrinsicFunction::S32ToS8 => Instruction::ConvertS32ToS8,
        IntrinsicFunction::SubS32 => Instruction::SubS32,
        IntrinsicFunction::SubU8 => Instruction::SubU8,
        IntrinsicFunction::SubU8Wrap => Instruction::SubU8Wrap,
    }
}

/// The name of the operation that an instruction carries out, where an
/// intrinsic function of that name exists
pub open spec fn operation_name(instruction: Instruction) -> Option<Seq<char>> {
    match instruction {
        Instruction::AddS8 => Some("add_s8"@),
        Instruction::AddS32 => Some("add_s32"@),
        Instruction::AddU8 => Some("add_u8"@),
        Instruction::AddU8Wrap => Some("add_u8_wrap"@),
        Instruction::ConvertS32ToS8 => Some("s32_to_s8"@),
        Instruction::Copy => Some("copy"@),
        Instruction::DivS32 => Some("div_s32"@),
        Instruction::DivU8 => Some("div_u8"@),
        Instruction::Drop => Some("drop"@),
        Instruction::Eq => Some("eq"@),
        Instruction::Eval { .. } => Some("eval"@),
        Instruction::GreaterS8 => Some("greater_s8"@),
        Instruction::GreaterS32 => Some("greater_s32"@),
        Instruction::GreaterU8 => Some("greater_u8"@),
        Instruction::LogicalAnd => Some("and"@),
        Instruction::LogicalNot => Some("not"@),
        Instruction::MulS32 => Some("mul_s32"@),
        Instruction::MulU8Wrap => Some("mul_u8_wrap"@),
        Instruction::NegS32 => Some("neg_s32"@),
        Instruction::Nop => Some("nop"@),
        Instruction::RemainderS32 => Some("remainder_s32"@),
        Instruction::SubS32 => Some("sub_s32"@),
        Instruction::SubU8 => Some("sub_u8"@),
        Instruction::SubU8Wrap => Some("sub_u8_wrap"@),
        Instruction::TriggerEffect { effect: Effect::Breakpoint } => Some("brk"@),
        _ => None,
    }
}

/// An intrinsic function compiles to the instruction that carries out the
/// operation of its name; so distinct intrinsic functions compile to
/// distinct instructions. Only `eval` depends on whether the call is a tail
/// call, and it passes that on as it is
pub proof fn law_intrinsic_compiles_to_its_operation(
    intrinsic: IntrinsicFunction,
    other: IntrinsicFunction,
    is_tail_call: bool,
    other_is_tail_call: bool,
)
    ensures
        operation_name(intrinsic_instruction(intrinsic, is_tail_call)) == Some(
            crate::compiler::intrinsics::intrinsic_name(intrinsic),
        ),
        intrinsic != other ==> intrinsic_instruction(intrinsic, is_tail_call) != intrinsic_instruction(
            other,
            other_is_tail_call,
        ),
        intrinsic_instruction(intrinsic, is_tail_call) is Eval ==> intrinsic_instruction(
            intrinsic,
            is_tail_call,
        )->Eval_is_tail_call == is_tail_call,
        !(intrinsic_instruction(intrinsic, is_tail_call) is Eval) ==> intrinsic_instruction(
            intrinsic,
            is_tail_call,
        ) == intrinsic_instruction(intrinsic, !is_tail_call),
{
    reveal_strlit("add_s8");
    reveal_strlit("add_s32");
    reveal_strlit("add_u8");
    reveal_strlit("add_u8_wrap");
    reveal_strlit("s32_to_s8");
    reveal_strlit("copy");
    reveal_strlit("div_s32");
    reveal_strlit("div_u8");
    reveal_strlit("drop");
    reveal_strlit("eq");
    reveal_strlit("eval");
    reveal_strlit("greater_s8");
    reveal_strlit("greater_s32");
    reveal_strlit("greater_u8");
    reveal_strlit("and");
    reveal_strlit("not");
    reveal_strlit("mul_s32");
    reveal_strlit("mul_u8_wrap");
    reveal_strlit("neg_s32");
    reveal_strlit("nop");
    reveal_strlit("remainder_s32");
    reveal_strlit("sub_s32");
    reveal_strlit("sub_u8");
    reveal_strlit("sub_u8_wrap");
    reveal_strlit("brk");
    if intrinsic != other {
        crate::compiler::intrinsics::lemma_intrinsic_names_distinct(intrinsic, other);
        assert(operation_name(intrinsic_instruction(other, other_is_tail_call)) == Some(
            crate::compiler::intrinsics::intrinsic_name(other),
        ));
    }
}

/// The instructions that a fragment compiles to, where they do not refer to
/// another compiled function; the placeholders stand for recursive calls and
/// anonymous functions
pub open spec fn plain_instructions(fragment: Fragment) -> Seq<Instruction> {
    match fragment {
        Fragment::CallToHostFunction { effect_number } => seq![
            Instruction::Push { value: Value(effect_number) },
            Instruction::TriggerEffect { effect: Effect::Host },
        ],
        Fragment::CallToIntrinsicFunction { intrinsic, is_tail_call } => seq![
            intrinsic_instruction(intrinsic, is_tail_call),
        ],
        Fragment::CallToUserDefinedFunctionRecursive { .. } => seq![
            Instruction::TriggerEffect { effect: Effect::CompilerBug },
        ],
        Fragment::Function { .. } => seq![Instruction::TriggerEffect { effect: Effect::CompilerBug }],
        Fragment::ResolvedBinding { name } => seq![Instruction::BindingEvaluate { name }],
        Fragment::UnresolvedIdentifier { .. } => seq![
            Instruction::TriggerEffect { effect: Effect::BuildError },
        ],
        Fragment::Value(value) => seq![Instruction::Push { value }],
        _ => Seq::empty(),
    }
}

/// The addresses from `first` on, `count` of them
pub open spec fn addresses_from(first: usize, count: nat) -> Seq<InstructionAddress> {
    Seq::new(count, |i: int| InstructionAddress { index: (first + i) as usize })
}

/// The instruction that an intrinsic function compiles to
fn intrinsic_to_instruction(intrinsic: IntrinsicFunction, is_tail_call: bool) -> (result: Instruction)
    ensures
        result == intrinsic_instruction(intrinsic, is_tail_call),
{
    match intrinsic {
        IntrinsicFunction::AddS8 => Instruction::AddS8,
        IntrinsicFunction::AddS32 => Instruction::AddS32,
        IntrinsicFunction::AddU8 => Instruction::AddU8,
        IntrinsicFunction::AddU8Wrap => Instruction::AddU8Wrap,
        IntrinsicFunction::And => Instruction::LogicalAnd,
        IntrinsicFunction::Brk => Instruction::TriggerEffect { effect: Effect::Breakpoint },
        IntrinsicFunction::Copy => Instruction::Copy,
        IntrinsicFunction::DivS32 => Instruction::DivS32,
        IntrinsicFunction::DivU8 => Instruction::DivU8,
        IntrinsicFunction::Drop => Instruction::Drop,
        IntrinsicFunction::Eq => Instruction::Eq,
        IntrinsicFunction::Eval => Instruction::Eval { is_tail_call },
        IntrinsicFunction::GreaterS8 => Instruction::GreaterS8,
        IntrinsicFunction::GreaterS32 => Instruction::GreaterS32,
        IntrinsicFunction::GreaterU8 => Instruction::GreaterU8,
        IntrinsicFunction::MulS32 => Instruction::MulS32,
        IntrinsicFunction::MulU8Wrap => Instruction::MulU8Wrap,
        IntrinsicFunction::NegS32 => Instruction::NegS32,
        IntrinsicFunction::Nop => Instruction::Nop,
        IntrinsicFunction::Not => Instruction::LogicalNot,
        IntrinsicFunction::RemainderS32 => Instruction::RemainderS32,
        IntrinsicFunction::S32ToS8 => Instruction::ConvertS32ToS8,
        IntrinsicFunction::SubS32 => Instruction::SubS32,
        IntrinsicFunction::SubU8 => Instruction::SubU8,
        IntrinsicFunction::SubU8Wrap => Instruction::SubU8Wrap,
    }
}

/// A copy of the parameters of a compiled branch
fn copy_parameters(parameters: &Vec<RuntimePattern>) -> (result: Vec<RuntimePattern>)
    ensures
        result@ == parameters@,
{
    let mut result: Vec<RuntimePattern> = Vec::new();
    let mut i: usize = 0;
    while i < parameters.len()
        invariant
            i <= parameters@.len(),
            result@ == parameters@.take(i as int),
        decreases parameters@.len() - i,
    {
        let copy = match &parameters[i] {
            RuntimePattern::Identifier { name } => RuntimePattern::Identifier { name: name.clone() },
            RuntimePattern::Literal { value } => RuntimePattern::Literal { value: *value },
        };
        result.push(copy);
        i = i + 1;
        assert(result@ =~= parameters@.take(i as int));
    }
    assert(parameters@.take(i as int) =~= parameters@);
    result
}

/// A copy of a compiled function
fn copy_runtime_function(function: &RuntimeFunction) -> (result: RuntimeFunction)
    ensures
        function_view(result) == function_view(*function),
{
    let mut branches: Vec<RuntimeBranch> = Vec::new();
    let mut i: usize = 0;
    while i < function.branches.len()
        invariant
            i <= function.branches@.len(),
            branches@.len() == i,
            forall|j: int| 0 <= j < i ==> branch_view(#[trigger] branches@[j]) == branch_view(function.branches@[j]),
        decreases function.branches@.len() - i,
    {
        let branch = &function.branches[i];
        branches.push(RuntimeBranch { parameters: copy_parameters(&branch.parameters), start: branch.start });
        i = i + 1;
    }
    assert(branches@.map_values(|branch: RuntimeBranch| branch_view(branch)) =~= function.branches@.map_values(
        |branch: RuntimeBranch| branch_view(branch),
    ));
    RuntimeFunction { branches }
}

/// The fragment map of a source map, after instructions are mapped to a
/// fragment anew
pub open spec fn mapped_fragments(
    fragments: Map<MemberLocation, Seq<InstructionAddress>>,
    location: MemberLocation,
    addresses: Seq<InstructionAddress>,
) -> Map<MemberLocation, Seq<InstructionAddress>> {
    fragments.insert(location, addresses)
}

/// The instruction map of a source map, after instructions are mapped to a
/// fragment
pub open spec fn mapped_instructions(
    instructions: Map<InstructionAddress, MemberLocation>,
    location: MemberLocation,
    addresses: Seq<InstructionAddress>,
) -> Map<InstructionAddress, MemberLocation> {
    instructions.union_prefer_right(Map::new(|a: InstructionAddress| addresses.contains(a), |a: InstructionAddress| location))
}

impl NamedFunctionsContext {
    /// # Append an instruction, mapped through the mapping
    fn generate_instruction(&mut self, instruction: Instruction, mapping: &crate::compiler::source_map::Mapping) -> (result: InstructionAddress)
        requires
            old(self).instructions@.len() < usize::MAX,
        ensures
            result == (InstructionAddress { index: old(self).instructions@.len() as usize }),
            final(self).instructions@ == old(self).instructions@.push(instruction),
            final(self).source_map.fragments() == old(self).source_map.fragments().insert(
                mapping.fragment(),
                if old(self).source_map.fragments().contains_key(mapping.fragment()) {
                    old(self).source_map.fragments()[mapping.fragment()].push(result)
                } else {
                    seq![result]
                },
            ),
            final(self).source_map.instructions() == old(self).source_map.instructions().insert(
                result,
                mapping.fragment(),
            ),
            final(self).source_map.functions() == old(self).source_map.functions(),
            final(self).source_map.calls() == old(self).source_map.calls(),
            final(self).compiled_functions_by_hash == old(self).compiled_functions_by_hash,
            final(self).named_functions == old(self).named_functions,
    {
        let address = InstructionAddress { index: self.instructions.len() };
        self.instructions.push(instruction);
        mapping.append_instruction(&mut self.source_map, address);
        address
    }
}

/// # Compile a fragment of a branch body
///
/// Appends the fragment's instructions, maps them to the fragment's
/// location, and returns the address of the first. A comment compiles to
/// nothing. A call to a function that is not part of the cluster calls the
/// compiled function; the compiler compiles functions from the leaves up, so
/// it is there. A recursive call gets a placeholder, recorded in the cluster
/// context, to be replaced once the cluster is compiled. An anonymous function
/// gets a placeholder too, and is queued, to be compiled once the current
/// function is done. Every call is recorded in the source map, under the hash
/// of its callee.
pub fn compile_fragment(
    fragment: Fragment,
    location: MemberLocation,
    cluster: &Cluster,
    cluster_context: &mut ClusterContext,
    named: &mut NamedFunctionsContext,
) -> (result: Option<InstructionAddress>)
    requires
        old(named).instructions@.len() + 2 < usize::MAX,
        match fragment {
            Fragment::CallToUserDefinedFunction { hash, .. } => old(
                named,
            ).compiled_functions_by_hash.view().contains_key(hash),
            Fragment::CallToUserDefinedFunctionRecursive { index, .. } => index.0 < cluster.functions@.len()
                && cluster.functions@[index.0 as int].0 < old(named).named_functions@.len(),
            Fragment::Function { function } => function.name is None,
            _ => true,
        },
    ensures
        ({
            let n = old(named).instructions@.len() as usize;
            let first = InstructionAddress { index: n };
            let count = match fragment {
                Fragment::Comment { .. } => 0nat,
                Fragment::CallToHostFunction { .. } => 2nat,
                _ => 1nat,
            };
            let added = addresses_from(n, count);
            &&& final(named).instructions@.len() == n + count
            &&& final(named).instructions@.take(n as int) == old(named).instructions@
            &&& result == if count == 0 { None } else { Some(first) }
            &&& match fragment {
                Fragment::CallToUserDefinedFunction { hash, is_tail_call } => {
                    &&& final(named).instructions@[n as int] matches Instruction::CallFunction { function, is_tail_call: t }
                        && t == is_tail_call && function_view(function) == function_view(
                        old(named).compiled_functions_by_hash.view()[hash],
                    )
                    &&& final(named).source_map.calls() == calls_after_recording(
                        old(named).source_map.calls(),
                        hash,
                        first,
                    )
                    &&& recursive_calls(*final(cluster_context)) == recursive_calls(*old(cluster_context))
                },
                Fragment::CallToUserDefinedFunctionRecursive { index, is_tail_call } => {
                    let callee = old(named).named_functions@[cluster.functions@[index.0 as int].0 as int];
                    &&& final(named).instructions@.skip(n as int) == plain_instructions(fragment)
                    &&& exists|hash: crate::compiler::hash::Hash|
                        hash.bytes() == function_hash(callee) && final(named).source_map.calls()
                            == calls_after_recording(old(named).source_map.calls(), hash, first)
                            && recursive_calls(*final(cluster_context)) == recursive_calls(
                            *old(cluster_context),
                        ).insert(
                            hash,
                            if recursive_calls(*old(cluster_context)).contains_key(hash) {
                                recursive_calls(*old(cluster_context))[hash]
                            } else {
                                Seq::empty()
                            }.push(CallToFunction { address: first, is_tail_call }),
                        )
                },
                _ => {
                    &&& final(named).instructions@.skip(n as int) == plain_instructions(fragment)
                    &&& final(named).source_map.calls() == old(named).source_map.calls()
                    &&& recursive_calls(*final(cluster_context)) == recursive_calls(*old(cluster_context))
                },
            }
            &&& final(named).source_map.fragments() == if count == 0 {
                old(named).source_map.fragments()
            } else {
                mapped_fragments(old(named).source_map.fragments(), location, added)
            }
            &&& final(named).source_map.instructions() == mapped_instructions(
                old(named).source_map.instructions(),
                location,
                added,
            )
            &&& final(named).source_map.functions() == old(named).source_map.functions()
            &&& final(cluster_context).queue_of_functions_to_compile@ == match fragment {
                Fragment::Function { function } => seq![
                    FunctionToCompile {
                        function,
                        location: FunctionLocation::AnonymousFunction { location: Box::new(location) },
                        address_of_instruction_to_make_anon_function: Some(first),
                    },
                ] + old(cluster_context).queue_of_functions_to_compile@,
                _ => old(cluster_context).queue_of_functions_to_compile@,
            }
            &&& final(named).compiled_functions_by_hash == old(named).compiled_functions_by_hash
            &&& final(named).named_functions == old(named).named_functions
        }),
{
    let ghost old_named_instructions = named.instructions@;
    let ghost old_fragments = named.source_map.fragments();
    let ghost old_mapped = named.source_map.instructions();
    let ghost n = named.instructions@.len() as usize;
    let ghost frag = fragment;
    match fragment {
        Fragment::Comment { .. } => {
            proof {
                assert(addresses_from(n, 0) =~= Seq::<InstructionAddress>::empty());
                assert(mapped_instructions(old_mapped, location, addresses_from(n, 0)) =~= old_mapped);
                assert(named.instructions@.take(n as int) =~= old_named_instructions);
            }
            None
        },
        Fragment::CallToUserDefinedFunction { hash, is_tail_call } => {
            let function = match named.compiled_functions_by_hash.get(&hash) {
                Some(function) => copy_runtime_function(function),
                None => {
                    assert(false);
                    return None;
                },
            };
            let mapping = named.source_map.map_fragment_to_instructions(crate::compiler::location::copy_member(&location));
            let address = named.generate_instruction(Instruction::CallFunction { function, is_tail_call }, &mapping);
            named.source_map.map_function_to_calling_instructions(hash, address);
            proof {
                lemma_one_added(old_named_instructions, named.instructions@, n);
                lemma_mapped_one(old_fragments, old_mapped, location, n);
            }
            Some(address)
        },
        Fragment::CallToUserDefinedFunctionRecursive { index, is_tail_call } => {
            let function_index = cluster.functions[index.0 as usize];
            let callee = &named.named_functions[function_index.0 as usize];
            let hash = hash_function(callee);
            let mapping = named.source_map.map_fragment_to_instructions(crate::compiler::location::copy_member(&location));
            let address = named.generate_instruction(
                Instruction::TriggerEffect { effect: Effect::CompilerBug },
                &mapping,
            );
            let mut calls = match cluster_context.recursive_calls_by_callee.remove(&hash) {
                Some(calls) => calls,
                None => Vec::new(),
            };
            calls.push(CallToFunction { address, is_tail_call });
            let ghost pushed = calls@;
            cluster_context.recursive_calls_by_callee.insert(hash, calls);
            named.source_map.map_function_to_calling_instructions(hash, address);
            proof {
                assert(recursive_calls(*cluster_context) =~= recursive_calls(*old(cluster_context)).insert(hash, pushed));
                lemma_one_added(old_named_instructions, named.instructions@, n);
                assert(named.instructions@.skip(n as int) =~= plain_instructions(frag));
                lemma_mapped_one(old_fragments, old_mapped, location, n);
            }
            Some(address)
        },
        Fragment::CallToHostFunction { effect_number } => {
            let mapping = named.source_map.map_fragment_to_instructions(crate::compiler::location::copy_member(&location));
            let ghost f0 = named.source_map.fragments();
            let address = named.generate_instruction(Instruction::Push { value: Value(effect_number) }, &mapping);
            let ghost f1 = named.source_map.fragments();
            let second = named.generate_instruction(Instruction::TriggerEffect { effect: Effect::Host }, &mapping);
            proof {
                assert(mapping.fragment() == location);
                assert(!f0.contains_key(location));
                assert(f1 == f0.insert(location, seq![address]));
                assert(named.source_map.fragments() == f1.insert(location, seq![address].push(second)));
                assert(named.instructions@.take(n as int) =~= old_named_instructions);
                assert(named.instructions@.skip(n as int) =~= plain_instructions(frag));
                let added = addresses_from(n, 2);
                let a1 = InstructionAddress { index: (n + 1) as usize };
                assert(added =~= seq![address, a1]);
                assert(second == a1);
                assert(seq![address].push(second) =~= added);
                assert(f0 == old_fragments.remove(location));
                assert(named.source_map.fragments() =~= mapped_fragments(old_fragments, location, added));
                assert forall|a: InstructionAddress| added.contains(a) == (a == address || a == a1) by {
                    if added.contains(a) {
                        let i = added.index_of(a);
                        assert(added[i] == a);
                    }
                    if a == a1 {
                        assert(added[1] == a);
                    }
                    if a == address {
                        assert(added[0] == a);
                    }
                }
                assert(named.source_map.instructions() =~= mapped_instructions(old_mapped, location, added));
            }
            Some(address)
        },
        Fragment::CallToIntrinsicFunction { intrinsic, is_tail_call } => {
            let mapping = named.source_map.map_fragment_to_instructions(crate::compiler::location::copy_member(&location));
            let address = named.generate_instruction(intrinsic_to_instruction(intrinsic, is_tail_call), &mapping);
            proof {
                lemma_one_added(old_named_instructions, named.instructions@, n);
                assert(named.instructions@.skip(n as int) =~= plain_instructions(frag));
                lemma_mapped_one(old_fragments, old_mapped, location, n);
            }
            Some(address)
        },
        Fragment::Function { function } => {
            // The anonymous function can't be compiled right here: its
            // instructions would end up in the middle of those of the
            // current function. A placeholder stands here, to be replaced
            // with the instruction that makes the anonymous function, once
            // that is compiled.
            let mapping = named.source_map.map_fragment_to_instructions(crate::compiler::location::copy_member(&location));
            let address = named.generate_instruction(
                Instruction::TriggerEffect { effect: Effect::CompilerBug },
                &mapping,
            );
            cluster_context.queue_of_functions_to_compile.push_front(
                FunctionToCompile {
                    function,
                    location: FunctionLocation::AnonymousFunction { location: Box::new(location) },
                    address_of_instruction_to_make_anon_function: Some(address),
                },
            );
            proof {
                lemma_one_added(old_named_instructions, named.instructions@, n);
                assert(named.instructions@.skip(n as int) =~= plain_instructions(frag));
                lemma_mapped_one(old_fragments, old_mapped, location, n);
            }
            Some(address)
        },
        Fragment::ResolvedBinding { name } => {
            let mapping = named.source_map.map_fragment_to_instructions(crate::compiler::location::copy_member(&location));
            let address = named.generate_instruction(Instruction::BindingEvaluate { name }, &mapping);
            proof {
                lemma_one_added(old_named_instructions, named.instructions@, n);
                assert(named.instructions@.skip(n as int) =~= plain_instructions(frag));
                lemma_mapped_one(old_fragments, old_mapped, location, n);
            }
            Some(address)
        },
        Fragment::UnresolvedIdentifier { .. } => {
            let mapping = named.source_map.map_fragment_to_instructions(crate::compiler::location::copy_member(&location));
            let address = named.generate_instruction(
                Instruction::TriggerEffect { effect: Effect::BuildError },
                &mapping,
            );
            proof {
                lemma_one_added(old_named_instructions, named.instructions@, n);
                assert(named.instructions@.skip(n as int) =~= plain_instructions(frag));
                lemma_mapped_one(old_fragments, old_mapped, location, n);
            }
            Some(address)
        },
        Fragment::Value(value) => {
            let mapping = named.source_map.map_fragment_to_instructions(crate::compiler::location::copy_member(&location));
            let address = named.generate_instruction(Instruction::Push { value }, &mapping);
            proof {
                lemma_one_added(old_named_instructions, named.instructions@, n);
                assert(named.instructions@.skip(n as int) =~= plain_instructions(frag));
                lemma_mapped_one(old_fragments, old_mapped, location, n);
            }
            Some(address)
        },
    }
}

/// One instruction appended leaves the ones before it
proof fn lemma_one_added(before: Seq<Instruction>, after: Seq<Instruction>, n: usize)
    requires
        before.len() == n,
        after.len() == n + 1,
        forall|i: int| 0 <= i < n ==> after[i] == before[i],
    ensures
        after.take(n as int) == before,
{
    assert(after.take(n as int) =~= before);
}

/// Mapping one new instruction to a fragment anew
proof fn lemma_mapped_one(
    fragments: Map<MemberLocation, Seq<InstructionAddress>>,
    instructions: Map<InstructionAddress, MemberLocation>,
    location: MemberLocation,
    n: usize,
)
    ensures
        fragments.remove(location).insert(location, seq![InstructionAddress { index: n }])
            == mapped_fragments(fragments, location, addresses_from(n, 1)),
        instructions.insert(InstructionAddress { index: n }, location) == mapped_instructions(
            instructions,
            location,
            addresses_from(n, 1),
        ),
{
    assert(addresses_from(n, 1) =~= seq![InstructionAddress { index: n }]);
    assert(fragments.remove(location).insert(location, seq![InstructionAddress { index: n }]) =~= mapped_fragments(
        fragments,
        location,
        addresses_from(n, 1),
    ));
    let added = addresses_from(n, 1);
    let a0 = InstructionAddress { index: n };
    assert(added[0] == a0);
    assert forall|a: InstructionAddress| added.contains(a) == (a == a0) by {
        if added.contains(a) {
            let i = added.index_of(a);
            assert(added[i] == a);
        }
    }
    assert(instructions.insert(a0, location) =~= mapped_instructions(instructions, location, added));
}

} // verus!
