//! A running program: its code, its evaluator, and its breakpoints.

use vstd::prelude::*;

use crate::builtins::{self, Builtin};
use crate::data_stack::{DataStack, Value};

verus! {

/// # The address of an instruction
#[derive(Clone, Copy, Debug, Default, PartialEq, Eq, Structural)]
pub struct InstructionAddress {
    pub index: usize,
}

/// # The location of an expression in the source code
#[derive(Clone, Debug)]
pub struct SourceLocation {
    /// The name of the function that contains the expression
    pub function: String,
    /// The index of the expression within that function
    pub index: u32,
}

impl SourceLocation {
    pub open spec fn same_as(&self, other: &SourceLocation) -> bool {
        self.function@ == other.function@ && self.index == other.index
    }

    /// # Make a copy of this location
    pub fn duplicate(&self) -> (result: SourceLocation)
        ensures
            result == *self,
    {
        SourceLocation { function: self.function.clone(), index: self.index }
    }

    /// # Determine, if two locations are the same
    pub fn equals(&self, other: &SourceLocation) -> (result: bool)
        ensures
            result == self.same_as(other),
    {
        self.index == other.index && self.function == other.function
    }
}

/// # The kind of an expression
#[derive(Clone, Debug)]
pub enum ExpressionKind {
    Comment { text: String },
    Value(Value),
    Word { name: String },
}

/// # An expression in the source code of a function
#[derive(Clone, Debug)]
pub struct Expression {
    pub kind: ExpressionKind,
    pub location: SourceLocation,
    pub breakpoint: bool,
}

/// # A function, as it is known to the runtime
#[derive(Clone, Debug)]
pub struct Function {
    pub name: String,
    pub syntax: Vec<Expression>,
}

/// # All functions of a program
#[derive(Clone, Debug)]
pub struct Functions {
    pub inner: Vec<Function>,
}

/// The index of the first function named `name`, if there is one
pub open spec fn first_function_named(functions: Seq<Function>, name: Seq<char>) -> int {
    choose|i: int|
        0 <= i < functions.len() && functions[i].name@ == name && forall|j: int|
            0 <= j < i ==> functions[j].name@ != name
}

/// Whether a function named `name` exists
pub open spec fn has_function_named(functions: Seq<Function>, name: Seq<char>) -> bool {
    exists|i: int| 0 <= i < functions.len() && functions[i].name@ == name
}

/// Find the first function with the given name
fn find_function(functions: &Vec<Function>, name: &String) -> (result: Option<usize>)
    ensures
        match result {
            Some(i) => {
                &&& i < functions@.len()
                &&& functions@[i as int].name@ == name@
                &&& forall|j: int| 0 <= j < i ==> functions@[j].name@ != name@
                &&& i == first_function_named(functions@, name@)
                &&& has_function_named(functions@, name@)
            },
            None => !has_function_named(functions@, name@),
        },
{
    let mut i: usize = 0;
    while i < functions.len()
        invariant
            i <= functions@.len(),
            forall|j: int| 0 <= j < i ==> functions@[j].name@ != name@,
        decreases functions@.len() - i,
    {
        if functions[i].name == *name {
            let ghost k = first_function_named(functions@, name@);
            assert(exists|m: int|
                0 <= m < functions@.len() && functions@[m].name@ == name@ && forall|j: int|
                    0 <= j < m ==> functions@[j].name@ != name@) by {
                assert(0 <= i < functions@.len() && functions@[i as int].name@ == name@);
            }
            proof {
                if k < i {
                } else if k > i {
                    assert(functions@[i as int].name@ != name@);
                }
            }
            return Some(i);
        }
        i = i + 1;
    }
    None
}

/// # Maps instructions to the source code they were generated from
#[derive(Clone, Debug)]
pub struct SourceMap {
    pub address_to_location: Vec<(InstructionAddress, SourceLocation)>,
}

impl SourceMap {
    /// The location of the first mapping for `address`, if there is one
    pub open spec fn location_of(&self, address: InstructionAddress) -> Option<SourceLocation> {
        if exists|i: int|
            0 <= i < self.address_to_location@.len() && self.address_to_location@[i].0 == address {
            let i = choose|i: int|
                0 <= i < self.address_to_location@.len() && self.address_to_location@[i].0
                    == address && forall|j: int|
                    0 <= j < i ==> self.address_to_location@[j].0 != address;
            Some(self.address_to_location@[i].1)
        } else {
            None
        }
    }

    /// # Find the source location that an instruction was generated from
    pub fn address_to_location(&self, address: &InstructionAddress) -> (result: Option<
        SourceLocation,
    >)
        ensures
            result == self.location_of(*address),
    {
        let mut i: usize = 0;
        while i < self.address_to_location.len()
            invariant
                i <= self.address_to_location@.len(),
                forall|j: int| 0 <= j < i ==> self.address_to_location@[j].0 != *address,
            decreases self.address_to_location@.len() - i,
        {
            if self.address_to_location[i].0 == *address {
                let ghost k = choose|k: int|
                    0 <= k < self.address_to_location@.len() && self.address_to_location@[k].0
                        == *address && forall|j: int|
                        0 <= j < k ==> self.address_to_location@[j].0 != *address;
                assert(0 <= i < self.address_to_location@.len()
                    && self.address_to_location@[i as int].0 == *address);
                proof {
                    if k < i {
                    } else if k > i {
                        assert(self.address_to_location@[i as int].0 != *address);
                    }
                }
                return Some(self.address_to_location[i].1.duplicate());
            }
            i = i + 1;
        }
        None
    }
}

} // verus!

verus! {

/// The breakpoint flags of all expressions of all functions
pub open spec fn breakpoint_flags(functions: Seq<Function>) -> Seq<Seq<bool>> {
    functions.map_values(|f: Function| f.syntax@.map_values(|e: Expression| e.breakpoint))
}

/// `new` is `old`, with the breakpoint flag of one expression toggled
pub open spec fn breakpoint_toggled(
    old: Seq<Function>,
    new: Seq<Function>,
    function: int,
    line: int,
) -> bool {
    &&& new.len() == old.len()
    &&& forall|j: int| 0 <= j < old.len() && j != function ==> new[j] == old[j]
    &&& new[function].name == old[function].name
    &&& new[function].syntax@.len() == old[function].syntax@.len()
    &&& forall|k: int|
        0 <= k < old[function].syntax@.len() && k != line ==> new[function].syntax@[k]
            == old[function].syntax@[k]
    &&& new[function].syntax@[line].kind == old[function].syntax@[line].kind
    &&& new[function].syntax@[line].location == old[function].syntax@[line].location
    &&& new[function].syntax@[line].breakpoint == !old[function].syntax@[line].breakpoint
}

/// Whether a breakpoint toggle at `line` of the function named `name` is
/// possible
pub open spec fn can_toggle(functions: Seq<Function>, name: Seq<char>, line: u32) -> bool {
    &&& has_function_named(functions, name)
    &&& line < functions[first_function_named(functions, name)].syntax@.len()
}

/// Toggle the breakpoint flag of an expression
fn toggle_breakpoint_in(functions: &mut Vec<Function>, name: &String, line: u32)
    requires
        can_toggle(old(functions)@, name@, line),
    ensures
        breakpoint_toggled(
            old(functions)@,
            final(functions)@,
            first_function_named(old(functions)@, name@),
            line as int,
        ),
{
    let i = find_function(functions, name).unwrap();
    let line = line as usize;
    let flag = functions[i].syntax[line].breakpoint;
    functions[i].syntax[line].breakpoint = !flag;
}

} // verus!

verus! {

/// Toggling the same breakpoint twice restores all breakpoint flags.
pub proof fn lemma_toggle_breakpoint_twice(
    a: Seq<Function>,
    b: Seq<Function>,
    c: Seq<Function>,
    function: int,
    line: int,
)
    requires
        0 <= function < a.len(),
        0 <= line < a[function].syntax@.len(),
        breakpoint_toggled(a, b, function, line),
        breakpoint_toggled(b, c, function, line),
    ensures
        breakpoint_flags(c) == breakpoint_flags(a),
{
    assert forall|j: int| 0 <= j < a.len() implies breakpoint_flags(c)[j] == breakpoint_flags(
        a,
    )[j] by {
        if j == function {
            assert(c[j].syntax@.map_values(|e: Expression| e.breakpoint) =~= a[j].syntax@.map_values(
                |e: Expression| e.breakpoint,
            ));
        }
    }
    assert(breakpoint_flags(c) =~= breakpoint_flags(a));
}

/// # An instruction that the evaluator executes
#[derive(Clone, Debug)]
pub enum Instruction {
    CallBuiltin { builtin: Builtin },
    Push { value: Value },
    Return,
}

/// # The state of the evaluator, after a step
#[derive(Clone, Copy, Debug, PartialEq, Eq, Structural)]
pub enum EvaluatorState {
    Running,
    Finished,
    Error { err: builtins::Error, instruction: InstructionAddress },
}

/// # Executes instructions
pub struct Evaluator {
    pub instructions: Vec<Instruction>,
    pub next_instruction: InstructionAddress,
    pub data_stack: DataStack,
}

impl Evaluator {
    /// Whether the next step can be taken without a builtin panicking
    pub open spec fn can_step(&self, mem_len: int) -> bool {
        let index = self.next_instruction.index as int;
        index < self.instructions@.len() ==> match self.instructions@[index] {
            Instruction::CallBuiltin { builtin } => builtins::precondition(
                builtin,
                self.data_stack.stack(),
                mem_len,
            ),
            _ => true,
        }
    }

    /// What a step does to the evaluator and memory, and what it returns
    pub open spec fn step_outcome(
        &self,
        after: &Evaluator,
        mem: Seq<u8>,
        mem_after: Seq<u8>,
        state: EvaluatorState,
    ) -> bool {
        let index = self.next_instruction.index as int;
        &&& after.instructions == self.instructions
        &&& if index >= self.instructions@.len() {
            &&& state == EvaluatorState::Finished
            &&& after.next_instruction == self.next_instruction
            &&& after.data_stack == self.data_stack
            &&& mem_after == mem
        } else {
            match self.instructions@[index] {
                Instruction::Push { value } => {
                    &&& state == EvaluatorState::Running
                    &&& after.next_instruction.index == index + 1
                    &&& after.data_stack.stack() == self.data_stack.stack().push(value)
                    &&& after.data_stack.saved_values() == self.data_stack.saved_values()
                    &&& mem_after == mem
                },
                Instruction::Return => {
                    &&& state == EvaluatorState::Finished
                    &&& after.next_instruction.index == self.instructions@.len()
                    &&& after.data_stack == self.data_stack
                    &&& mem_after == mem
                },
                Instruction::CallBuiltin { builtin } => {
                    let result: builtins::Result = match state {
                        EvaluatorState::Error { err, .. } => Err(err),
                        _ => Ok(()),
                    };
                    &&& builtins::outcome(
                        builtin,
                        self.data_stack.stack(),
                        self.data_stack.saved_values(),
                        after.data_stack.stack(),
                        after.data_stack.saved_values(),
                        mem,
                        mem_after,
                        result,
                    )
                    &&& state is Running ==> after.next_instruction.index == index + 1
                    &&& state is Error ==> {
                        &&& state->instruction == self.next_instruction
                        &&& after.next_instruction == self.next_instruction
                    }
                    &&& !(state is Finished)
                },
            }
        }
    }

    /// # Execute the next instruction
    pub fn step(&mut self, mem: &mut [u8]) -> (state: EvaluatorState)
        requires
            old(self).can_step(old(mem)@.len() as int),
        ensures
            old(self).step_outcome(final(self), old(mem)@, final(mem)@, state),
    {
        let address = self.next_instruction;
        if address.index >= self.instructions.len() {
            return EvaluatorState::Finished;
        }
        match &self.instructions[address.index] {
            Instruction::Push { value } => {
                self.data_stack.push(*value);
                self.next_instruction = InstructionAddress { index: address.index + 1 };
                EvaluatorState::Running
            },
            Instruction::Return => {
                self.next_instruction = InstructionAddress { index: self.instructions.len() };
                EvaluatorState::Finished
            },
            Instruction::CallBuiltin { builtin } => {
                let builtin = *builtin;
                let ghost before = self.data_stack;
                let ghost mem_before = mem@;
                let result = builtins::run(builtin, &mut self.data_stack, mem);
                assert(builtins::outcome(
                    builtin,
                    before.stack(),
                    before.saved_values(),
                    self.data_stack.stack(),
                    self.data_stack.saved_values(),
                    mem_before,
                    mem@,
                    result,
                ));
                match result {
                    Ok(()) => {
                        self.next_instruction = InstructionAddress { index: address.index + 1 };
                        EvaluatorState::Running
                    },
                    Err(err) => EvaluatorState::Error { err, instruction: address },
                }
            },
        }
    }
}

/// # The state of a program
#[derive(Clone, Debug)]
pub enum ProgramState {
    Running,
    Paused {
        /// The location at which the program is paused
        location: SourceLocation,
    },
    Finished,
    Error { err: builtins::Error, instruction: InstructionAddress },
}

/// The program state that corresponds to an evaluator state
pub open spec fn program_state_of(state: EvaluatorState) -> ProgramState {
    match state {
        EvaluatorState::Running => ProgramState::Running,
        EvaluatorState::Finished => ProgramState::Finished,
        EvaluatorState::Error { err, instruction } => ProgramState::Error { err, instruction },
    }
}

/// The evaluator state that a program state (other than `Paused`) comes from
pub open spec fn evaluator_state_of(state: ProgramState) -> EvaluatorState {
    match state {
        ProgramState::Error { err, instruction } => EvaluatorState::Error { err, instruction },
        ProgramState::Running => EvaluatorState::Running,
        _ => EvaluatorState::Finished,
    }
}

impl ProgramState {
    pub fn is_running(&self) -> (result: bool)
        ensures
            result == (*self is Running),
    {
        matches!(self, Self::Running)
    }

    pub fn is_paused(&self) -> (result: bool)
        ensures
            result == (*self is Paused),
    {
        matches!(self, Self::Paused { .. })
    }

    /// # Make a copy of this state
    pub fn duplicate(&self) -> (result: ProgramState)
        ensures
            result == *self,
    {
        match self {
            Self::Running => Self::Running,
            Self::Paused { location } => Self::Paused { location: location.duplicate() },
            Self::Finished => Self::Finished,
            Self::Error { err, instruction } => Self::Error { err: *err, instruction: *instruction },
        }
    }
}

impl From<EvaluatorState> for ProgramState {
    fn from(state: EvaluatorState) -> (result: Self) {
        match state {
            EvaluatorState::Running => Self::Running,
            EvaluatorState::Finished => Self::Finished,
            EvaluatorState::Error { err, instruction } => Self::Error { err, instruction },
        }
    }
}

impl vstd::std_specs::convert::FromSpecImpl<EvaluatorState> for ProgramState {
    open spec fn obeys_from_spec() -> bool {
        true
    }

    open spec fn from_spec(state: EvaluatorState) -> Self {
        program_state_of(state)
    }
}

/// # The location of a line in the source code
#[derive(Clone, Debug)]
pub struct LineLocation {
    pub function: String,
    pub line: u32,
}

/// # An event sent by the debugger
#[derive(Clone, Debug)]
pub enum DebugEvent {
    ToggleBreakpoint { address: InstructionAddress, location: LineLocation },
}

/// The breakpoint that `breakpoints` holds for `address`; `false` if none
pub open spec fn breakpoint_at(
    breakpoints: Seq<(InstructionAddress, bool)>,
    address: InstructionAddress,
) -> bool {
    exists|i: int|
        0 <= i < breakpoints.len() && breakpoints[i].0 == address && breakpoints[i].1
}

/// No address occurs twice in `breakpoints`
pub open spec fn addresses_unique(breakpoints: Seq<(InstructionAddress, bool)>) -> bool {
    forall|i: int, j: int|
        0 <= i < j < breakpoints.len() ==> breakpoints[i].0 != breakpoints[j].0
}

/// Flip the breakpoint at `address`, adding it if there is none
fn toggle_address(breakpoints: &mut Vec<(InstructionAddress, bool)>, address: InstructionAddress)
    requires
        addresses_unique(old(breakpoints)@),
    ensures
        addresses_unique(final(breakpoints)@),
        breakpoint_at(final(breakpoints)@, address) == !breakpoint_at(old(breakpoints)@, address),
        forall|other: InstructionAddress|
            other != address ==> breakpoint_at(final(breakpoints)@, other) == breakpoint_at(
                old(breakpoints)@,
                other,
            ),
{
    let mut i: usize = 0;
    while i < breakpoints.len()
        invariant
            i <= breakpoints@.len(),
            breakpoints@ == old(breakpoints)@,
            addresses_unique(breakpoints@),
            forall|j: int| 0 <= j < i ==> breakpoints@[j].0 != address,
        decreases breakpoints@.len() - i,
    {
        if breakpoints[i].0 == address {
            let ghost before = breakpoints@;
            let flag = breakpoints[i].1;
            breakpoints.set(i, (address, !flag));
            assert forall|other: InstructionAddress| other != address implies breakpoint_at(
                breakpoints@,
                other,
            ) == breakpoint_at(before, other) by {
                if breakpoint_at(before, other) {
                    let j = choose|j: int|
                        0 <= j < before.len() && before[j].0 == other && before[j].1;
                    assert(breakpoints@[j] == before[j]);
                }
                if breakpoint_at(breakpoints@, other) {
                    let j = choose|j: int|
                        0 <= j < breakpoints@.len() && breakpoints@[j].0 == other
                            && breakpoints@[j].1;
                    assert(breakpoints@[j] == before[j]);
                }
            }
            proof {
                if breakpoint_at(before, address) {
                    let j = choose|j: int|
                        0 <= j < before.len() && before[j].0 == address && before[j].1;
                    assert(j == i as int);
                }
                if flag {
                    assert(breakpoints@[i as int].0 == address);
                } else {
                    assert(breakpoints@[i as int].1);
                }
                assert forall|a: int, b: int| 0 <= a < b < breakpoints@.len() implies breakpoints@[a].0
                    != breakpoints@[b].0 by {
                    assert(breakpoints@[a].0 == before[a].0);
                    assert(breakpoints@[b].0 == before[b].0);
                }
                if breakpoint_at(breakpoints@, address) {
                    let j = choose|j: int|
                        0 <= j < breakpoints@.len() && breakpoints@[j].0 == address && breakpoints@[j].1;
                    assert(j == i as int);
                }
            }
            return ;
        }
        i = i + 1;
    }
    let ghost before = breakpoints@;
    breakpoints.push((address, true));
    assert(breakpoints@[before.len() as int].0 == address);
    assert(!breakpoint_at(before, address));
    assert(addresses_unique(breakpoints@)) by {
        assert forall|a: int, b: int| 0 <= a < b < breakpoints@.len() implies breakpoints@[a].0
            != breakpoints@[b].0 by {
            if b == before.len() {
                assert(breakpoints@[a] == before[a]);
            } else {
                assert(breakpoints@[a] == before[a]);
                assert(breakpoints@[b] == before[b]);
            }
        }
    }
    assert forall|other: InstructionAddress| other != address implies breakpoint_at(
        breakpoints@,
        other,
    ) == breakpoint_at(before, other) by {
        if breakpoint_at(before, other) {
            let j = choose|j: int| 0 <= j < before.len() && before[j].0 == other && before[j].1;
            assert(breakpoints@[j] == before[j]);
        }
    }
}

/// # The breakpoints at instruction addresses, each set or not
///
/// No address occurs twice.
#[derive(Debug)]
pub struct Breakpoints {
    entries: Vec<(InstructionAddress, bool)>,
}

impl Breakpoints {
    /// No address occurs twice
    #[verifier::type_invariant]
    spec fn addresses_are_unique(self) -> bool {
        addresses_unique(self.entries@)
    }

    /// The addresses, each with whether its breakpoint is set
    pub closed spec fn entries(&self) -> Seq<(InstructionAddress, bool)> {
        self.entries@
    }

    /// # No breakpoints
    pub fn new() -> (result: Self)
        ensures
            result.entries() == Seq::<(InstructionAddress, bool)>::empty(),
    {
        Breakpoints { entries: Vec::new() }
    }

    /// # Flip the breakpoint at an address, adding it if there is none
    pub fn toggle(&mut self, address: InstructionAddress)
        ensures
            breakpoint_at(final(self).entries(), address) == !breakpoint_at(old(self).entries(), address),
            forall|other: InstructionAddress|
                other != address ==> breakpoint_at(final(self).entries(), other) == breakpoint_at(
                    old(self).entries(),
                    other,
                ),
    {
        proof {
            use_type_invariant(&*self);
        }
        let mut entries: Vec<(InstructionAddress, bool)> = Vec::new();
        std::mem::swap(&mut entries, &mut self.entries);
        toggle_address(&mut entries, address);
        self.entries = entries;
    }

    /// # Whether the breakpoint at the address is set
    pub fn is_set(&self, address: InstructionAddress) -> (result: bool)
        ensures
            result == breakpoint_at(self.entries(), address),
    {
        let mut i: usize = 0;
        while i < self.entries.len()
            invariant
                i <= self.entries@.len(),
                forall|j: int| 0 <= j < i ==> !(self.entries@[j].0 == address && self.entries@[j].1),
            decreases self.entries@.len() - i,
        {
            if self.entries[i].0 == address && self.entries[i].1 {
                return true;
            }
            i = i + 1;
        }
        false
    }
}

/// # A program, with everything needed to run and debug it
pub struct Program {
    pub functions: Functions,
    pub source_map: SourceMap,
    pub breakpoints: Breakpoints,
    pub evaluator: Evaluator,
    pub state: ProgramState,
    pub entry_address: InstructionAddress,
}

impl Program {
    /// The location at which the program pauses before its next step, if
    /// any
    pub open spec fn breakpoint_for_next_instruction(&self) -> Option<SourceLocation> {
        match self.source_map.location_of(self.evaluator.next_instruction) {
            Some(location) => {
                let functions = self.functions.inner@;
                let function = functions[first_function_named(functions, location.function@)];
                let k = choose|k: int|
                    0 <= k < function.syntax@.len() && function.syntax@[k].location.same_as(
                        &location,
                    ) && forall|j: int|
                        0 <= j < k ==> !function.syntax@[j].location.same_as(&location);
                if function.syntax@[k].breakpoint {
                    Some(location)
                } else {
                    None
                }
            },
            None => None,
        }
    }

    /// Whether the source code of the next instruction can be found
    pub open spec fn next_location_is_known(&self) -> bool {
        match self.source_map.location_of(self.evaluator.next_instruction) {
            Some(location) => {
                let functions = self.functions.inner@;
                &&& has_function_named(functions, location.function@)
                &&& exists|k: int|
                    0 <= k < functions[first_function_named(
                        functions,
                        location.function@,
                    )].syntax@.len() && functions[first_function_named(
                        functions,
                        location.function@,
                    )].syntax@[k].location.same_as(&location)
            },
            None => true,
        }
    }

    /// # Push arguments to the data stack
    pub fn push(&mut self, arguments: Vec<Value>)
        ensures
            final(self).evaluator.data_stack.stack() == old(self).evaluator.data_stack.stack()
                + arguments@,
            final(self).evaluator.data_stack.saved_values()
                == old(self).evaluator.data_stack.saved_values(),
            final(self).evaluator.instructions == old(self).evaluator.instructions,
            final(self).evaluator.next_instruction == old(self).evaluator.next_instruction,
    {
        let ghost stack0 = self.evaluator.data_stack.stack();
        let mut i: usize = 0;
        while i < arguments.len()
            invariant
                i <= arguments@.len(),
                self.evaluator.data_stack.stack() == stack0 + arguments@.take(i as int),
                self.evaluator.data_stack.saved_values() == old(
                    self,
                ).evaluator.data_stack.saved_values(),
                self.evaluator.instructions == old(self).evaluator.instructions,
                self.evaluator.next_instruction == old(self).evaluator.next_instruction,
            decreases arguments@.len() - i,
        {
            self.evaluator.data_stack.push(arguments[i]);
            i = i + 1;
            assert(stack0 + arguments@.take(i as int) =~= (stack0 + arguments@.take(
                (i - 1) as int,
            )).push(arguments@[i - 1]));
        }
        assert(arguments@.take(i as int) =~= arguments@);
    }

    /// # Reset the program to its entry point
    pub fn reset(&mut self)
        ensures
            final(self).evaluator.next_instruction == old(self).entry_address,
            final(self).evaluator.instructions == old(self).evaluator.instructions,
            final(self).evaluator.data_stack == old(self).evaluator.data_stack,
            final(self).entry_address == old(self).entry_address,
    {
        self.evaluator.next_instruction = self.entry_address;
    }

    /// # Apply an event from the debugger
    pub fn apply_debug_event(&mut self, event: DebugEvent)
        requires
            ({
                let DebugEvent::ToggleBreakpoint { location, .. } = event;
                can_toggle(old(self).functions.inner@, location.function@, location.line)
            }),
        ensures
            final(self).source_map == old(self).source_map,
            final(self).evaluator == old(self).evaluator,
            final(self).state == old(self).state,
            final(self).entry_address == old(self).entry_address,
            ({
                let DebugEvent::ToggleBreakpoint { address, location } = event;
                &&& breakpoint_at(final(self).breakpoints.entries(), address) == !breakpoint_at(
                    old(self).breakpoints.entries(),
                    address,
                )
                &&& forall|other: InstructionAddress|
                    other != address ==> breakpoint_at(final(self).breakpoints.entries(), other)
                        == breakpoint_at(old(self).breakpoints.entries(), other)
                &&& breakpoint_toggled(
                    old(self).functions.inner@,
                    final(self).functions.inner@,
                    first_function_named(old(self).functions.inner@, location.function@),
                    location.line as int,
                )
            }),
    {
        match event {
            DebugEvent::ToggleBreakpoint { address, location: LineLocation { function, line } } => {
                self.breakpoints.toggle(address);
                toggle_breakpoint_in(&mut self.functions.inner, &function, line);
            },
        }
    }

    /// Find the breakpoint at the next instruction, if one is set there
    fn breakpoint_set_for_next_instruction(&self) -> (result: Option<SourceLocation>)
        requires
            self.next_location_is_known(),
        ensures
            result == self.breakpoint_for_next_instruction(),
    {
        let next_location = self.source_map.address_to_location(
            &self.evaluator.next_instruction,
        )?;

        let i = find_function(&self.functions.inner, &next_location.function).unwrap();
        let syntax = &self.functions.inner[i].syntax;
        let ghost function = self.functions.inner@[i as int];
        let mut k: usize = 0;
        while k < syntax.len()
            invariant
                k <= syntax@.len(),
                syntax@ == function.syntax@,
                self.source_map.location_of(self.evaluator.next_instruction) == Some(next_location),
                i == first_function_named(self.functions.inner@, next_location.function@),
                function == self.functions.inner@[i as int],
                forall|j: int| 0 <= j < k ==> !syntax@[j].location.same_as(&next_location),
                exists|m: int|
                    0 <= m < syntax@.len() && syntax@[m].location.same_as(&next_location),
            decreases syntax@.len() - k,
        {
            if syntax[k].location.equals(&next_location) {
                assert(exists|m: int|
                    0 <= m < function.syntax@.len() && function.syntax@[m].location.same_as(
                        &next_location,
                    ) && forall|j: int|
                        0 <= j < m ==> !function.syntax@[j].location.same_as(&next_location)) by {
                    assert(function.syntax@[k as int].location.same_as(&next_location));
                }
                let ghost c = choose|c: int|
                    0 <= c < function.syntax@.len() && function.syntax@[c].location.same_as(
                        &next_location,
                    ) && forall|j: int|
                        0 <= j < c ==> !function.syntax@[j].location.same_as(&next_location);
                assert(0 <= k < function.syntax@.len() && function.syntax@[k as int].location.same_as(
                    &next_location,
                ));
                proof {
                    if c < k {
                    } else if c > k {
                        assert(!function.syntax@[k as int].location.same_as(&next_location));
                    }
                }
                assert(c == k);
                assert(self.source_map.location_of(self.evaluator.next_instruction) == Some(
                    next_location,
                ));
                assert(i == first_function_named(self.functions.inner@, next_location.function@));
                if syntax[k].breakpoint {
                    return Some(next_location);
                }
                return None;
            }
            k = k + 1;
        }
        None
    }

    fn step_inner(&mut self, mem: &mut [u8]) -> (state: ProgramState)
        requires
            old(self).next_location_is_known(),
            old(self).breakpoint_for_next_instruction() is None ==> old(self).evaluator.can_step(
                old(mem)@.len() as int,
            ),
        ensures
            final(self).functions == old(self).functions,
            final(self).source_map == old(self).source_map,
            final(self).breakpoints == old(self).breakpoints,
            final(self).entry_address == old(self).entry_address,
            final(self).state == old(self).state,
            match old(self).breakpoint_for_next_instruction() {
                Some(location) => {
                    &&& state == ProgramState::Paused { location }
                    &&& final(self).evaluator == old(self).evaluator
                    &&& final(mem)@ == old(mem)@
                },
                None => {
                    &&& !(state is Paused)
                    &&& old(self).evaluator.step_outcome(
                        &final(self).evaluator,
                        old(mem)@,
                        final(mem)@,
                        evaluator_state_of(state),
                    )
                },
            },
    {
        if let Some(location) = self.breakpoint_set_for_next_instruction() {
            return ProgramState::Paused { location };
        }

        let evaluator_state = self.evaluator.step(mem);
        ProgramState::from(evaluator_state)
    }

    /// # Take a step: pause at a breakpoint, or execute the next instruction
    pub fn step(&mut self, mem: &mut [u8]) -> (state: ProgramState)
        requires
            old(self).next_location_is_known(),
            old(self).breakpoint_for_next_instruction() is None ==> old(self).evaluator.can_step(
                old(mem)@.len() as int,
            ),
        ensures
            final(self).state == state,
            final(self).functions == old(self).functions,
            final(self).source_map == old(self).source_map,
            final(self).breakpoints == old(self).breakpoints,
            final(self).entry_address == old(self).entry_address,
            match old(self).breakpoint_for_next_instruction() {
                Some(location) => {
                    &&& state == ProgramState::Paused { location }
                    &&& final(self).evaluator == old(self).evaluator
                    &&& final(mem)@ == old(mem)@
                },
                None => {
                    &&& !(state is Paused)
                    &&& old(self).evaluator.step_outcome(
                        &final(self).evaluator,
                        old(mem)@,
                        final(mem)@,
                        evaluator_state_of(state),
                    )
                },
            },
    {
        let state = self.step_inner(mem);
        self.state = state.duplicate();
        state
    }
}

/// # The state of the debugger
pub struct DebugState {
    pub functions: Vec<Function>,
}

impl DebugState {
    pub fn new(functions: Functions) -> (result: Self)
        ensures
            result.functions@ == functions.inner@,
    {
        Self { functions: functions.inner }
    }

    /// # Apply an event to the debugger's view of the code
    pub fn apply_event(&mut self, event: DebugEvent)
        requires
            ({
                let DebugEvent::ToggleBreakpoint { location, .. } = event;
                can_toggle(old(self).functions@, location.function@, location.line)
            }),
        ensures
            ({
                let DebugEvent::ToggleBreakpoint { location, .. } = event;
                breakpoint_toggled(
                    old(self).functions@,
                    final(self).functions@,
                    first_function_named(old(self).functions@, location.function@),
                    location.line as int,
                )
            }),
    {
        match event {
            DebugEvent::ToggleBreakpoint { location: LineLocation { function, line }, .. } => {
                toggle_breakpoint_in(&mut self.functions, &function, line);
            },
        }
    }
}

} // verus!
