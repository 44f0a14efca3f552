//! What the debugger shows of a process: which functions are active, and the
//! state of each expression.

use vstd::prelude::*;

use crate::compiler::call_graph::Cluster;
use crate::compiler::fragments::FunctionIndexInCluster;
use crate::compiler::intrinsics::{intrinsic_name, IntrinsicFunction};
use crate::compiler::location::{copy_member, same_member, FunctionIndexInRootContext, FunctionLocation, MemberLocation};
use crate::compiler::instructions::{function_view, Effect, Instruction, RuntimeBranch, RuntimeFunction, RuntimePattern};
use crate::compiler::source_map::SourceMap;
use crate::compiler::table::Key;
use crate::program::InstructionAddress;
use crate::text::{chars_of, decimal, decimal_string, string_of};

verus! {

/// # Why the debugger shows no active functions
#[derive(Clone, Copy, Debug, PartialEq, Eq, Structural)]
pub enum ActiveFunctionsMessage {
    NoServer,
    NoProcess,
    ProcessRunning,
    ProcessFinished,
}

/// The message for a process, given what the debugger knows of it, if it
/// shows one in place of the active functions
pub open spec fn message_for(
    has_code: bool,
    has_process: bool,
    can_step: bool,
    has_finished: bool,
) -> Option<ActiveFunctionsMessage> {
    if !has_code {
        Some(ActiveFunctionsMessage::NoServer)
    } else if !has_process {
        Some(ActiveFunctionsMessage::NoProcess)
    } else if can_step {
        Some(ActiveFunctionsMessage::ProcessRunning)
    } else if has_finished {
        Some(ActiveFunctionsMessage::ProcessFinished)
    } else {
        None
    }
}

impl ActiveFunctionsMessage {
    /// # The message to show in place of the active functions, if any
    ///
    /// Active functions can only be shown, where the debugger has the code
    /// from the server and a process, and the process has stopped without
    /// finishing.
    pub fn for_process(has_code: bool, has_process: bool, can_step: bool, has_finished: bool) -> (result: Option<
        ActiveFunctionsMessage,
    >)
        ensures
            result == message_for(has_code, has_process, can_step, has_finished),
    {
        if !has_code {
            return Some(ActiveFunctionsMessage::NoServer);
        }
        if !has_process {
            return Some(ActiveFunctionsMessage::NoProcess);
        }
        if can_step {
            return Some(ActiveFunctionsMessage::ProcessRunning);
        }
        if has_finished {
            return Some(ActiveFunctionsMessage::ProcessFinished);
        }
        None
    }

    /// # The text of the message
    pub fn text(&self) -> (result: &'static str)
        ensures
            result@ == match *self {
                ActiveFunctionsMessage::NoServer => "No connection to server."@,
                ActiveFunctionsMessage::NoProcess => "No connection to process."@,
                ActiveFunctionsMessage::ProcessRunning => "Process is running."@,
                ActiveFunctionsMessage::ProcessFinished => "Process is finished."@,
            },
    {
        match self {
            ActiveFunctionsMessage::NoServer => "No connection to server.",
            ActiveFunctionsMessage::NoProcess => "No connection to process.",
            ActiveFunctionsMessage::ProcessRunning => "Process is running.",
            ActiveFunctionsMessage::ProcessFinished => "Process is finished.",
        }
    }
}

/// # Whether an expression is active
#[derive(Clone, Copy, Debug, PartialEq, Eq, Structural)]
pub enum DebugExpressionState {
    /// The process is stopped at this expression
    InnermostActiveExpression,
    /// The expression calls an active function
    ActiveCaller,
    NotActive,
}

impl DebugExpressionState {
    /// # The state of the expression at the given location
    ///
    /// The expression is active, if it is the active expression of its
    /// function. It is the innermost active expression, if its function is
    /// the innermost active function, else an active caller.
    pub fn new(
        location: &MemberLocation,
        active_expression: Option<&MemberLocation>,
        is_in_innermost_active_function: bool,
    ) -> (result: Self)
        ensures
            result == if active_expression == Some(location) {
                if is_in_innermost_active_function {
                    DebugExpressionState::InnermostActiveExpression
                } else {
                    DebugExpressionState::ActiveCaller
                }
            } else {
                DebugExpressionState::NotActive
            },
    {
        let is_active = match active_expression {
            Some(active) => same_member(active, location),
            None => false,
        };
        if is_active {
            if is_in_innermost_active_function {
                DebugExpressionState::InnermostActiveExpression
            } else {
                DebugExpressionState::ActiveCaller
            }
        } else {
            DebugExpressionState::NotActive
        }
    }

    /// # Whether this is the innermost active expression
    ///
    /// The innermost active expression is the active expression in the
    /// innermost active function: the one where the process is stopped.
    pub fn is_innermost_active_expression(&self) -> (result: bool)
        ensures
            result == (*self is InnermostActiveExpression),
    {
        matches!(self, DebugExpressionState::InnermostActiveExpression)
    }

    /// # Whether the expression is active
    ///
    /// An expression is active, if the process is stopped there, or if it
    /// calls an active function.
    pub fn is_active(&self) -> (result: bool)
        ensures
            result == !(*self is NotActive),
    {
        matches!(
            self,
            DebugExpressionState::InnermostActiveExpression | DebugExpressionState::ActiveCaller
        )
    }
}

/// # An expression, with what it refers to resolved
#[derive(Debug)]
pub enum Expression {
    CallToUserDefinedFunction { hash: crate::compiler::hash::Hash, is_tail_call: bool },
    CallToUserDefinedFunctionRecursive { index: FunctionIndexInCluster, is_tail_call: bool },
    CallToIntrinsicFunction { intrinsic: IntrinsicFunction, is_tail_call: bool },
    Comment { text: String },
    LiteralNumber { value: i32 },
    LocalFunction { hash: crate::compiler::hash::Hash },
    LocalFunctionRecursive { index: FunctionIndexInCluster },
    UnresolvedIdentifier { name: String },
    UnresolvedLocalFunction,
}

/// # A named function, as the debugger knows it
#[derive(Debug)]
pub struct StableFunction {
    pub name: String,
    pub hash: crate::compiler::hash::Hash,
}

/// # The named functions of the code, by their index in the root context
#[derive(Debug)]
pub struct StableFunctions {
    pub named: Vec<StableFunction>,
}

/// # A function that the debugger shows within an expression
///
/// A local function is shown where it is defined; its location identifies
/// it.
#[derive(Debug)]
pub struct DebugFunction {
    pub name: Option<String>,
    pub location: FunctionLocation,
}

/// # What kind of expression the debugger shows
#[derive(Debug)]
pub enum DebugExpressionKind {
    CallToFunction { name: String },
    CallToFunctionRecursive { name: String },
    CallToIntrinsic { name: String },
    Comment { text: String },
    Function { function: DebugFunction },
    UnresolvedIdentifier { name: String },
    UnresolvedLocalFunction,
    Value { as_string: String },
}

/// The position of the first named function with the given hash
pub open spec fn first_with_hash(named: Seq<StableFunction>, hash: crate::compiler::hash::Hash) -> int {
    choose|i: int|
        0 <= i < named.len() && named[i].hash == hash && forall|j: int| 0 <= j < i ==> named[j].hash != hash
}

/// Whether some named function has the hash
pub open spec fn has_hash(named: Seq<StableFunction>, hash: crate::compiler::hash::Hash) -> bool {
    exists|i: int| 0 <= i < named.len() && named[i].hash == hash
}

/// The name that the debugger shows for what an expression refers to, or the
/// text it shows for it
pub open spec fn shown_text(expression: Expression, cluster: Cluster, named: Seq<StableFunction>) -> Seq<char> {
    match expression {
        Expression::CallToUserDefinedFunction { hash, .. } => named[first_with_hash(named, hash)].name@,
        Expression::CallToUserDefinedFunctionRecursive { index, .. } => named[cluster.functions@[index.0 as int].0 as int].name@,
        Expression::CallToIntrinsicFunction { intrinsic, .. } => intrinsic_name(intrinsic),
        Expression::Comment { text } => seq!['#', ' '] + text@,
        Expression::LiteralNumber { value } => decimal(value as int),
        Expression::UnresolvedIdentifier { name } => name@,
        _ => Seq::empty(),
    }
}

impl DebugExpressionKind {
    /// # What kind of expression the debugger shows for an expression
    ///
    /// A call shows the name of the function it calls, a comment its text
    /// behind `# `, a number literal its value in decimal, and a local
    /// function the function, at the location of the expression that
    /// defines it.
    ///
    /// A call refers to a function that exists, and a recursive call or
    /// local function to a function of the cluster.
    pub fn new(expression: Expression, location: &MemberLocation, cluster: &Cluster, functions: &StableFunctions) -> (result: Self)
        requires
            match expression {
                Expression::CallToUserDefinedFunction { hash, .. } => has_hash(functions.named@, hash),
                Expression::CallToUserDefinedFunctionRecursive { index, .. } => index.0
                    < cluster.functions@.len() && cluster.functions@[index.0 as int].0
                    < functions.named@.len(),
                Expression::LocalFunctionRecursive { index } => index.0 < cluster.functions@.len(),
                _ => true,
            },
        ensures
            ({
                let text = shown_text(expression, *cluster, functions.named@);
                match expression {
                    Expression::CallToUserDefinedFunction { .. } => result matches Self::CallToFunction { name }
                        && name@ == text,
                    Expression::CallToUserDefinedFunctionRecursive { .. } => result matches Self::CallToFunctionRecursive {
                        name,
                    } && name@ == text,
                    Expression::CallToIntrinsicFunction { .. } => result matches Self::CallToIntrinsic { name }
                        && name@ == text,
                    Expression::Comment { .. } => result matches Self::Comment { text: t } && t@ == text,
                    Expression::LiteralNumber { .. } => result matches Self::Value { as_string }
                        && as_string@ == text,
                    Expression::LocalFunction { .. } | Expression::LocalFunctionRecursive { .. } => result
                        == (Self::Function {
                        function: DebugFunction {
                            name: None,
                            location: FunctionLocation::AnonymousFunction { location: Box::new(*location) },
                        },
                    }),
                    Expression::UnresolvedIdentifier { .. } => result matches Self::UnresolvedIdentifier { name }
                        && name@ == text,
                    Expression::UnresolvedLocalFunction => result == Self::UnresolvedLocalFunction,
                }
            }),
    {
        match expression {
            Expression::CallToUserDefinedFunction { hash, is_tail_call } => {
                let mut i: usize = 0;
                while i < functions.named.len()
                    invariant
                        i <= functions.named@.len(),
                        expression == (Expression::CallToUserDefinedFunction { hash, is_tail_call }),
                        has_hash(functions.named@, hash),
                        forall|j: int| 0 <= j < i ==> functions.named@[j].hash != hash,
                    decreases functions.named@.len() - i,
                {
                    if functions.named[i].hash.same_key(&hash) {
                        assert(0 <= i < functions.named@.len() && functions.named@[i as int].hash == hash
                            && forall|j: int| 0 <= j < i ==> functions.named@[j].hash != hash);
                        let ghost first = first_with_hash(functions.named@, hash);
                        proof {
                            assert(functions.named@[i as int].hash == hash);
                            if first != i {
                                if first < i {
                                    assert(functions.named@[first].hash != hash);
                                } else {
                                    assert(functions.named@[i as int].hash != hash);
                                }
                            }
                        }
                        assert(first == i);
                        let name = functions.named[i].name.clone();
                        return Self::CallToFunction { name };
                    }
                    i = i + 1;
                }
                proof {
                    let k = choose|k: int| 0 <= k < functions.named@.len() && functions.named@[k].hash == hash;
                    assert(functions.named@[k].hash != hash);
                }
                Self::CallToFunction { name: String::new() }
            },
            Expression::CallToUserDefinedFunctionRecursive { index, .. } => {
                let called = cluster.functions[index.0 as usize];
                Self::CallToFunctionRecursive { name: functions.named[called.0 as usize].name.clone() }
            },
            Expression::CallToIntrinsicFunction { intrinsic, .. } => {
                Self::CallToIntrinsic { name: intrinsic.name().to_owned() }
            },
            Expression::Comment { text } => {
                let mut chars: Vec<char> = Vec::new();
                chars.push('#');
                chars.push(' ');
                let text_chars = chars_of(text.as_str());
                let mut k: usize = 0;
                while k < text_chars.len()
                    invariant
                        k <= text_chars@.len(),
                        chars@ == seq!['#', ' '] + text_chars@.take(k as int),
                    decreases text_chars@.len() - k,
                {
                    chars.push(text_chars[k]);
                    k = k + 1;
                    assert(chars@ =~= seq!['#', ' '] + text_chars@.take(k as int));
                }
                assert(text_chars@.take(k as int) =~= text_chars@);
                Self::Comment { text: string_of(chars.as_slice()) }
            },
            Expression::LiteralNumber { value } => Self::Value { as_string: decimal_string(value) },
            Expression::LocalFunction { .. } | Expression::LocalFunctionRecursive { .. } => Self::Function {
                function: DebugFunction {
                    name: None,
                    location: FunctionLocation::AnonymousFunction { location: Box::new(copy_member(location)) },
                },
            },
            Expression::UnresolvedIdentifier { name } => Self::UnresolvedIdentifier { name },
            Expression::UnresolvedLocalFunction => Self::UnresolvedLocalFunction,
        }
    }
}

/// # Compiled code, as the debugger has it
#[derive(Debug)]
pub struct Code {
    pub instructions: Vec<Instruction>,
    pub source_map: SourceMap,
}

/// # The breakpoints: those the user set, and one for the next step
#[derive(Debug)]
pub struct Breakpoints {
    pub durable: Vec<InstructionAddress>,
    pub ephemeral: Vec<InstructionAddress>,
}

/// # What the user asks the debugger to do
#[derive(Debug)]
pub enum UserAction {
    BreakpointClear { fragment: MemberLocation },
    BreakpointSet { fragment: MemberLocation },
    Continue,
    Reset,
    StepInto,
    Stop,
}

/// # What the debugger asks the runtime to do
#[derive(Debug)]
pub enum Command {
    Continue,
    IgnoreNextInstruction,
    Reset,
    Step,
    Stop,
    UpdateCode { instructions: Vec<Instruction> },
}

/// # Why the debugger could not carry out an action
#[derive(Clone, Copy, Debug, PartialEq, Eq, Structural)]
pub enum DebuggerError {
    /// No code is there yet
    NoCode,
    /// No branch is active
    NoActiveBranch,
    /// The active branch has no active fragment
    NoActiveFragment,
    /// No instruction was generated from the fragment
    FragmentHasNoInstructions,
    /// The code has no instruction at the address
    NoInstructionAtAddress,
}

/// # The active branch of the innermost active function: its body, and the
/// position of its active fragment, if any
#[derive(Debug)]
pub struct ActiveBranch {
    pub body: Vec<MemberLocation>,
    pub active_fragment: Option<usize>,
}

/// # What the debugger derives from its persistent state
#[derive(Debug)]
pub struct TransientState {
    /// The active branch of the innermost active function, if there is one
    pub active_branch: Option<ActiveBranch>,
}

/// # What the debugger keeps
#[derive(Debug)]
pub struct PersistentState {
    pub code: Option<Code>,
    pub breakpoints: Breakpoints,
}

/// Whether two instructions are the same: a call holds a function with the
/// same branches
pub open spec fn same_instruction(a: Instruction, b: Instruction) -> bool {
    match (a, b) {
        (
            Instruction::CallFunction { function: f, is_tail_call: t },
            Instruction::CallFunction { function: g, is_tail_call: u },
        ) => t == u && function_view(f) == function_view(g),
        _ => a == b,
    }
}

/// The breakpoints, durable and ephemeral
pub open spec fn all_breakpoints(breakpoints: Breakpoints) -> Seq<InstructionAddress> {
    breakpoints.durable@ + breakpoints.ephemeral@
}

/// Whether the instructions are those of the code, with a breakpoint at each
/// address of the breakpoints
pub open spec fn with_breakpoints(
    result: Seq<Instruction>,
    code: Seq<Instruction>,
    breakpoints: Seq<InstructionAddress>,
) -> bool {
    &&& result.len() == code.len()
    &&& forall|i: int|
        0 <= i < code.len() ==> if breakpoints.contains(InstructionAddress { index: i as usize }) {
            #[trigger] result[i] == Instruction::TriggerEffect { effect: Effect::Breakpoint }
        } else {
            same_instruction(result[i], code[i])
        }
}

/// The first instruction that the code generated from a fragment
pub open spec fn first_instruction_of(code: Code, fragment: MemberLocation) -> Option<InstructionAddress> {
    if code.source_map.fragments().contains_key(fragment) && code.source_map.fragments()[fragment].len() > 0 {
        Some(code.source_map.fragments()[fragment][0])
    } else {
        None
    }
}

/// The fragment after the active one in the active branch, if any
pub open spec fn fragment_after(branch: ActiveBranch, active: usize) -> Option<MemberLocation> {
    if active + 1 < branch.body@.len() {
        Some(branch.body@[active + 1])
    } else {
        None
    }
}

/// Whether the first command sends the code's instructions, with the
/// breakpoints applied
pub open spec fn sends_code(commands: Seq<Command>, code: Seq<Instruction>, breakpoints: Seq<InstructionAddress>) -> bool {
    commands.len() >= 1 && match commands[0] {
        Command::UpdateCode { instructions } => with_breakpoints(instructions@, code, breakpoints),
        _ => false,
    }
}

/// A copy of an instruction
fn copy_instruction(instruction: &Instruction) -> (result: Instruction)
    ensures
        same_instruction(result, *instruction),
{
    match instruction {
        Instruction::AddS8 => Instruction::AddS8,
        Instruction::AddS32 => Instruction::AddS32,
        Instruction::AddU8 => Instruction::AddU8,
        Instruction::AddU8Wrap => Instruction::AddU8Wrap,
        Instruction::BindingEvaluate { name } => Instruction::BindingEvaluate { name: name.clone() },
        Instruction::CallFunction { function, is_tail_call } => {
            let mut branches: Vec<RuntimeBranch> = Vec::new();
            let mut i: usize = 0;
            while i < function.branches.len()
                invariant
                    i <= function.branches@.len(),
                    branches@.len() == i,
                    forall|j: int|
                        0 <= j < i ==> crate::compiler::instructions::branch_view(#[trigger] branches@[j])
                            == crate::compiler::instructions::branch_view(function.branches@[j]),
                decreases function.branches@.len() - i,
            {
                let branch = &function.branches[i];
                let mut parameters: Vec<RuntimePattern> = Vec::new();
                let mut k: usize = 0;
                while k < branch.parameters.len()
                    invariant
                        k <= branch.parameters@.len(),
                        parameters@ == branch.parameters@.take(k as int),
                    decreases branch.parameters@.len() - k,
                {
                    let copy = match &branch.parameters[k] {
                        RuntimePattern::Identifier { name } => RuntimePattern::Identifier { name: name.clone() },
                        RuntimePattern::Literal { value } => RuntimePattern::Literal { value: *value },
                    };
                    parameters.push(copy);
                    k = k + 1;
                    assert(parameters@ =~= branch.parameters@.take(k as int));
                }
                assert(branch.parameters@.take(k as int) =~= branch.parameters@);
                branches.push(RuntimeBranch { parameters, start: branch.start });
                i = i + 1;
            }
            let copy = RuntimeFunction { branches };
            assert(function_view(copy) =~= function_view(*function));
            Instruction::CallFunction { function: copy, is_tail_call: *is_tail_call }
        },
        Instruction::ConvertS32ToS8 => Instruction::ConvertS32ToS8,
        Instruction::Copy => Instruction::Copy,
        Instruction::DivS32 => Instruction::DivS32,
        Instruction::DivU8 => Instruction::DivU8,
        Instruction::Drop => Instruction::Drop,
        Instruction::Eq => Instruction::Eq,
        Instruction::Eval { is_tail_call } => Instruction::Eval { is_tail_call: *is_tail_call },
        Instruction::GreaterS8 => Instruction::GreaterS8,
        Instruction::GreaterS32 => Instruction::GreaterS32,
        Instruction::GreaterU8 => Instruction::GreaterU8,
        Instruction::LogicalAnd => Instruction::LogicalAnd,
        Instruction::LogicalNot => Instruction::LogicalNot,
        Instruction::MulS32 => Instruction::MulS32,
        Instruction::MulU8Wrap => Instruction::MulU8Wrap,
        Instruction::NegS32 => Instruction::NegS32,
        Instruction::Nop => Instruction::Nop,
        Instruction::Push { value } => Instruction::Push { value: *value },
        Instruction::RemainderS32 => Instruction::RemainderS32,
        Instruction::Return => Instruction::Return,
        Instruction::SubS32 => Instruction::SubS32,
        Instruction::SubU8 => Instruction::SubU8,
        Instruction::SubU8Wrap => Instruction::SubU8Wrap,
        Instruction::TriggerEffect { effect } => Instruction::TriggerEffect { effect: *effect },
    }
}

/// Whether an address is among the given ones
fn contains_address(addresses: &Vec<InstructionAddress>, address: InstructionAddress) -> (result: bool)
    ensures
        result == addresses@.contains(address),
{
    let mut i: usize = 0;
    while i < addresses.len()
        invariant
            i <= addresses@.len(),
            forall|j: int| 0 <= j < i ==> addresses@[j] != address,
        decreases addresses@.len() - i,
    {
        if addresses[i].index == address.index {
            assert(addresses@[i as int] == address);
            return true;
        }
        i = i + 1;
    }
    false
}

/// Pushing an address adds it to the set of addresses
proof fn lemma_push_to_set(addresses: Seq<InstructionAddress>, address: InstructionAddress)
    ensures
        addresses.push(address).to_set() == addresses.to_set().insert(address),
{
    let pushed = addresses.push(address);
    assert forall|a: InstructionAddress| pushed.to_set().contains(a) == addresses.to_set().insert(address).contains(a) by {
        if pushed.contains(a) {
            let i = pushed.index_of(a);
            if i < addresses.len() {
                assert(addresses[i] == a);
            }
        }
        if addresses.contains(a) {
            let i = addresses.index_of(a);
            assert(pushed[i] == a);
        }
        if a == address {
            assert(pushed[addresses.len() as int] == a);
        }
    }
    assert(pushed.to_set() =~= addresses.to_set().insert(address));
}

impl Breakpoints {
    /// # Set a durable breakpoint
    pub fn set_durable(&mut self, address: InstructionAddress)
        ensures
            final(self).durable@.to_set() == old(self).durable@.to_set().insert(address),
            final(self).ephemeral@ == old(self).ephemeral@,
    {
        if !contains_address(&self.durable, address) {
            proof {
                lemma_push_to_set(self.durable@, address);
            }
            self.durable.push(address);
        } else {
            assert(self.durable@.to_set() =~= old(self).durable@.to_set().insert(address));
        }
    }

    /// # Clear a durable breakpoint
    pub fn clear_durable(&mut self, address: InstructionAddress)
        ensures
            final(self).durable@.to_set() == old(self).durable@.to_set().remove(address),
            final(self).ephemeral@ == old(self).ephemeral@,
    {
        let mut kept: Vec<InstructionAddress> = Vec::new();
        let mut i: usize = 0;
        while i < self.durable.len()
            invariant
                i <= self.durable@.len(),
                kept@.to_set() == self.durable@.take(i as int).to_set().remove(address),
            decreases self.durable@.len() - i,
        {
            let a = self.durable[i];
            proof {
                assert(self.durable@.take(i + 1) =~= self.durable@.take(i as int).push(a));
                lemma_push_to_set(self.durable@.take(i as int), a);
            }
            if a.index != address.index {
                proof {
                    lemma_push_to_set(kept@, a);
                }
                kept.push(a);
                assert(kept@.to_set() =~= self.durable@.take(i + 1).to_set().remove(address));
            } else {
                assert(kept@.to_set() =~= self.durable@.take(i + 1).to_set().remove(address));
            }
            i = i + 1;
        }
        assert(self.durable@.take(i as int) =~= self.durable@);
        self.durable = kept;
    }

    /// # Set an ephemeral breakpoint, one for the next step
    pub fn set_ephemeral(&mut self, address: InstructionAddress)
        ensures
            final(self).ephemeral@.to_set() == old(self).ephemeral@.to_set().insert(address),
            final(self).durable@ == old(self).durable@,
    {
        if !contains_address(&self.ephemeral, address) {
            proof {
                lemma_push_to_set(self.ephemeral@, address);
            }
            self.ephemeral.push(address);
        } else {
            assert(self.ephemeral@.to_set() =~= old(self).ephemeral@.to_set().insert(address));
        }
    }
}

impl PersistentState {
    /// # The code's instructions, with a breakpoint at each address of the
    /// breakpoints
    pub fn apply_breakpoints(&self, code: &Code) -> (result: Vec<Instruction>)
        ensures
            with_breakpoints(result@, code.instructions@, all_breakpoints(self.breakpoints)),
    {
        let mut result: Vec<Instruction> = Vec::new();
        let mut i: usize = 0;
        while i < code.instructions.len()
            invariant
                i <= code.instructions@.len(),
                result@.len() == i,
                forall|j: int|
                    0 <= j < i ==> if all_breakpoints(self.breakpoints).contains(InstructionAddress { index: j as usize }) {
                        #[trigger] result@[j] == Instruction::TriggerEffect { effect: Effect::Breakpoint }
                    } else {
                        same_instruction(result@[j], code.instructions@[j])
                    },
            decreases code.instructions@.len() - i,
        {
            let address = InstructionAddress { index: i };
            let at_breakpoint = contains_address(&self.breakpoints.durable, address) || contains_address(
                &self.breakpoints.ephemeral,
                address,
            );
            proof {
                let points = all_breakpoints(self.breakpoints);
                if points.contains(address) {
                    let k = points.index_of(address);
                    if k < self.breakpoints.durable@.len() {
                        assert(self.breakpoints.durable@[k] == address);
                    } else {
                        assert(self.breakpoints.ephemeral@[k - self.breakpoints.durable@.len()] == address);
                    }
                }
                if self.breakpoints.durable@.contains(address) {
                    let k = self.breakpoints.durable@.index_of(address);
                    assert(points[k] == address);
                }
                if self.breakpoints.ephemeral@.contains(address) {
                    let k = self.breakpoints.ephemeral@.index_of(address);
                    assert(points[self.breakpoints.durable@.len() + k] == address);
                }
            }
            if at_breakpoint {
                result.push(Instruction::TriggerEffect { effect: Effect::Breakpoint });
            } else {
                result.push(copy_instruction(&code.instructions[i]));
            }
            i = i + 1;
        }
        result
    }

    /// # Act on what the user asks
    ///
    /// Continuing, resetting and stopping pass the action on to the runtime.
    /// Setting or clearing a breakpoint changes the durable breakpoint at the
    /// fragment's first instruction, and sends the code with the breakpoints
    /// applied. Stepping into the next fragment of the active branch sets an
    /// ephemeral breakpoint there, sends the code with the breakpoints
    /// applied, and, where the process stands at a breakpoint, has it ignore
    /// the next instruction; where no fragment follows, it steps.
    pub fn on_user_action(&mut self, action: UserAction, transient: &TransientState) -> (result: Result<Vec<Command>, DebuggerError>)
        ensures
            match action {
                UserAction::Continue => result matches Ok(commands) && commands@.len() == 1 && commands@[0] is Continue
                    && *final(self) == *old(self),
                UserAction::Reset => result matches Ok(commands) && commands@.len() == 1 && commands@[0] is Reset
                    && *final(self) == *old(self),
                UserAction::Stop => result matches Ok(commands) && commands@.len() == 1 && commands@[0] is Stop
                    && *final(self) == *old(self),
                UserAction::BreakpointSet { fragment } | UserAction::BreakpointClear { fragment } => match old(
                    self,
                ).code {
                    None => result == Err::<Vec<Command>, DebuggerError>(DebuggerError::NoCode) && *final(self)
                        == *old(self),
                    Some(code) => match first_instruction_of(code, fragment) {
                        None => result == Err::<Vec<Command>, DebuggerError>(
                            DebuggerError::FragmentHasNoInstructions,
                        ) && *final(self) == *old(self),
                        Some(address) => {
                            &&& final(self).code == old(self).code
                            &&& final(self).breakpoints.ephemeral@ == old(self).breakpoints.ephemeral@
                            &&& final(self).breakpoints.durable@.to_set() == if action is BreakpointSet {
                                old(self).breakpoints.durable@.to_set().insert(address)
                            } else {
                                old(self).breakpoints.durable@.to_set().remove(address)
                            }
                            &&& result matches Ok(commands) && commands@.len() == 1 && sends_code(
                                commands@,
                                code.instructions@,
                                all_breakpoints(final(self).breakpoints),
                            )
                        },
                    },
                },
                UserAction::StepInto => match transient.active_branch {
                    None => result == Err::<Vec<Command>, DebuggerError>(DebuggerError::NoActiveBranch)
                        && *final(self) == *old(self),
                    Some(branch) => match branch.active_fragment {
                        None => result == Err::<Vec<Command>, DebuggerError>(DebuggerError::NoActiveFragment)
                            && *final(self) == *old(self),
                        Some(active) => match fragment_after(branch, active) {
                            None => result matches Ok(commands) && commands@.len() == 1 && commands@[0] is Step
                                && *final(self) == *old(self),
                            Some(target) => match old(self).code {
                                None => result == Err::<Vec<Command>, DebuggerError>(DebuggerError::NoCode)
                                    && *final(self) == *old(self),
                                Some(code) => if active >= branch.body@.len() || first_instruction_of(
                                    code,
                                    branch.body@[active as int],
                                ) is None || first_instruction_of(code, target) is None {
                                    result == Err::<Vec<Command>, DebuggerError>(
                                        DebuggerError::FragmentHasNoInstructions,
                                    ) && *final(self) == *old(self)
                                } else {
                                    let origin = first_instruction_of(code, branch.body@[active as int])->0;
                                    let address = first_instruction_of(code, target)->0;
                                    &&& final(self).code == old(self).code
                                    &&& final(self).breakpoints.durable@ == old(self).breakpoints.durable@
                                    &&& final(self).breakpoints.ephemeral@.to_set()
                                        == old(self).breakpoints.ephemeral@.to_set().insert(address)
                                    &&& if origin.index < code.instructions@.len() {
                                        result matches Ok(commands) && sends_code(
                                            commands@,
                                            code.instructions@,
                                            all_breakpoints(final(self).breakpoints),
                                        ) && commands@.len() == if code.instructions@[origin.index as int]
                                            == (Instruction::TriggerEffect { effect: Effect::Breakpoint }) {
                                            2int
                                        } else {
                                            1int
                                        } && (commands@.len() == 2 ==> commands@[1] is IgnoreNextInstruction)
                                    } else {
                                        result == Err::<Vec<Command>, DebuggerError>(
                                            DebuggerError::NoInstructionAtAddress,
                                        )
                                    }
                                },
                            },
                        },
                    },
                },
            },
    {
        match action {
            UserAction::Continue => Ok(vec![Command::Continue]),
            UserAction::Reset => Ok(vec![Command::Reset]),
            UserAction::Stop => Ok(vec![Command::Stop]),
            UserAction::BreakpointSet { fragment } => {
                let address = match self.fragment_to_instruction(&fragment) {
                    Ok(address) => address,
                    Err(err) => return Err(err),
                };
                self.breakpoints.set_durable(address);
                self.update_code()
            },
            UserAction::BreakpointClear { fragment } => {
                let address = match self.fragment_to_instruction(&fragment) {
                    Ok(address) => address,
                    Err(err) => return Err(err),
                };
                self.breakpoints.clear_durable(address);
                self.update_code()
            },
            UserAction::StepInto => {
                let branch = match &transient.active_branch {
                    Some(branch) => branch,
                    None => return Err(DebuggerError::NoActiveBranch),
                };
                let active = match branch.active_fragment {
                    Some(active) => active,
                    None => return Err(DebuggerError::NoActiveFragment),
                };
                if active >= branch.body.len() || active + 1 >= branch.body.len() {
                    // No fragment follows the active one in the current
                    // function: step out of it, as a plain step does.
                    return Ok(vec![Command::Step]);
                }
                let target = &branch.body[active + 1];
                let origin = match self.fragment_to_instruction(&branch.body[active]) {
                    Ok(origin) => origin,
                    Err(err) => return Err(err),
                };
                let target = match self.fragment_to_instruction(target) {
                    Ok(target) => target,
                    Err(err) => return Err(err),
                };
                self.breakpoints.set_ephemeral(target);
                let mut commands = match self.update_code() {
                    Ok(commands) => commands,
                    Err(err) => return Err(err),
                };
                let at_breakpoint = match &self.code {
                    Some(code) => {
                        if origin.index >= code.instructions.len() {
                            return Err(DebuggerError::NoInstructionAtAddress);
                        }
                        matches!(code.instructions[origin.index], Instruction::TriggerEffect { effect: Effect::Breakpoint })
                    },
                    None => return Err(DebuggerError::NoCode),
                };
                if at_breakpoint {
                    commands.push(Command::IgnoreNextInstruction);
                }
                Ok(commands)
            },
        }
    }

    /// # The first instruction generated from a fragment
    fn fragment_to_instruction(&self, fragment: &MemberLocation) -> (result: Result<InstructionAddress, DebuggerError>)
        ensures
            match self.code {
                None => result == Err::<InstructionAddress, DebuggerError>(DebuggerError::NoCode),
                Some(code) => match first_instruction_of(code, *fragment) {
                    Some(address) => result == Ok::<InstructionAddress, DebuggerError>(address),
                    None => result == Err::<InstructionAddress, DebuggerError>(
                        DebuggerError::FragmentHasNoInstructions,
                    ),
                },
            },
    {
        match &self.code {
            None => Err(DebuggerError::NoCode),
            Some(code) => {
                let instructions = code.source_map.fragment_to_instructions(fragment);
                if instructions.len() > 0 {
                    Ok(instructions[0])
                } else {
                    Err(DebuggerError::FragmentHasNoInstructions)
                }
            },
        }
    }

    /// # The command that sends the code with the breakpoints applied
    fn update_code(&self) -> (result: Result<Vec<Command>, DebuggerError>)
        ensures
            match self.code {
                None => result == Err::<Vec<Command>, DebuggerError>(DebuggerError::NoCode),
                Some(code) => result matches Ok(commands) && commands@.len() == 1 && sends_code(
                    commands@,
                    code.instructions@,
                    all_breakpoints(self.breakpoints),
                ),
            },
    {
        match &self.code {
            None => Err(DebuggerError::NoCode),
            Some(code) => {
                let instructions = self.apply_breakpoints(code);
                Ok(vec![Command::UpdateCode { instructions }])
            },
        }
    }
}

} // verus!
