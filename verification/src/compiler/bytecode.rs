//! Generating bytecode from code fragments: each fragment becomes at most one
//! instruction. Blocks and calls to user-defined functions get a placeholder,
//! to be replaced once what they refer to has been compiled.

use std::collections::VecDeque;

use vstd::prelude::*;

use crate::compiler::fragments::FragmentId;
use crate::compiler::syntax::Pattern;
use crate::data_stack::Value;
use crate::program::InstructionAddress;

verus! {

/// # An instruction of the bytecode
#[derive(Debug)]
pub enum Instruction {
    BindingEvaluate { name: String },
    BindingsDefine { names: Vec<String> },
    CallBuiltin { name: String },
    CallFunction { address: InstructionAddress, is_tail_call: bool },
    MakeClosure { address: InstructionAddress, environment: Vec<String> },
    Panic,
    Push { value: Value },
    Return,
    ReturnIfNonZero,
    ReturnIfZero,
}

/// # An expression, as a fragment holds it
#[derive(Debug)]
pub enum FragmentExpression {
    BindingDefinitions { names: Vec<String> },
    Block { start: FragmentId, environment: Vec<String> },
    Comment { text: String },
    ResolvedBinding { name: String },
    ResolvedBuiltinFunction { name: String },
    ResolvedHostFunction { name: String },
    ResolvedUserFunction { name: String, is_tail_call: bool },
    UnresolvedIdentifier { name: String },
    Value(Value),
}

/// # A function, as a fragment defines it
#[derive(Debug)]
pub struct Function {
    pub name: String,
    pub arguments: Vec<Pattern>,
    /// The first fragment of the function's body
    pub start: FragmentId,
}

/// # What a fragment holds
#[derive(Debug)]
pub enum FragmentPayload {
    Expression { expression: FragmentExpression },
    Function(Function),
    Terminator,
}

/// # A fragment of code
#[derive(Debug)]
pub struct Fragment {
    pub id: FragmentId,
    pub payload: FragmentPayload,
}

/// # A call to a user-defined function, to be filled in
#[derive(Debug)]
pub struct CallToUserDefinedFunction {
    pub name: String,
    /// The placeholder to replace with the call
    pub address: InstructionAddress,
    pub is_tail_call: bool,
}

/// # Code to compile once the current function or block is done
#[derive(Debug)]
pub enum CompileUnit {
    /// A block, whose placeholder becomes the instruction that makes the
    /// closure
    Block { start: FragmentId, environment: Vec<String>, address: InstructionAddress },
    Function(Function),
}

/// # What compiling fragments produces
#[derive(Debug)]
pub struct Output {
    pub instructions: Vec<Instruction>,
    pub placeholders: Vec<CallToUserDefinedFunction>,
    /// The fragment that each instruction was generated from
    pub source_map: Vec<(InstructionAddress, FragmentId)>,
}

/// # Compiles fragments to bytecode
#[derive(Debug)]
pub struct Compiler {
    pub queue: VecDeque<CompileUnit>,
    pub output: Output,
}

/// The instruction that a built-in function is called with: two of them
/// have instructions of their own
pub open spec fn builtin_call(name: String) -> Instruction {
    if name@ == "return_if_non_zero"@ {
        Instruction::ReturnIfNonZero
    } else if name@ == "return_if_zero"@ {
        Instruction::ReturnIfZero
    } else {
        Instruction::CallBuiltin { name }
    }
}

/// The built-in function that an instruction calls, by its name, if it calls
/// one
pub open spec fn called_builtin(instruction: Instruction) -> Option<Seq<char>> {
    match instruction {
        Instruction::CallBuiltin { name } => Some(name@),
        Instruction::ReturnIfNonZero => Some("return_if_non_zero"@),
        Instruction::ReturnIfZero => Some("return_if_zero"@),
        _ => None,
    }
}

/// A call of a built-in function compiles to an instruction that calls the
/// built-in function of that name; so calls of built-in functions of
/// distinct names compile to distinct instructions. The two conditional
/// returns have instructions of their own; every other built-in function is
/// called by its name
pub proof fn law_builtin_call_calls_its_builtin(name: String, other: String)
    ensures
        called_builtin(builtin_call(name)) == Some(name@),
        name@ != other@ ==> builtin_call(name) != builtin_call(other),
        (builtin_call(name) is CallBuiltin) <==> (name@ != "return_if_non_zero"@ && name@
            != "return_if_zero"@),
{
    assert(called_builtin(builtin_call(other)) == Some(other@));
}

/// The instruction that a fragment's payload compiles to, if any: a
/// placeholder for blocks and calls to user-defined functions, and a panic
/// for identifiers that could not be resolved
pub open spec fn instruction_for(payload: FragmentPayload) -> Option<Instruction> {
    match payload {
        FragmentPayload::Expression { expression } => match expression {
            FragmentExpression::BindingDefinitions { names } => Some(Instruction::BindingsDefine { names }),
            FragmentExpression::Block { .. } => Some(Instruction::Panic),
            FragmentExpression::Comment { .. } => None,
            FragmentExpression::ResolvedBinding { name } => Some(Instruction::BindingEvaluate { name }),
            FragmentExpression::ResolvedBuiltinFunction { name } => Some(builtin_call(name)),
            FragmentExpression::ResolvedHostFunction { name } => Some(Instruction::CallBuiltin { name }),
            FragmentExpression::ResolvedUserFunction { .. } => Some(Instruction::Panic),
            FragmentExpression::UnresolvedIdentifier { .. } => Some(Instruction::Panic),
            FragmentExpression::Value(value) => Some(Instruction::Push { value }),
        },
        FragmentPayload::Function(_) => None,
        FragmentPayload::Terminator => Some(Instruction::Return),
    }
}

/// The instruction that a built-in function is called with
fn builtin_instruction(name: String) -> (result: Instruction)
    ensures
        result == builtin_call(name),
{
    if name.clone() == "return_if_non_zero".to_owned() {
        Instruction::ReturnIfNonZero
    } else if name.clone() == "return_if_zero".to_owned() {
        Instruction::ReturnIfZero
    } else {
        Instruction::CallBuiltin { name }
    }
}

impl Output {
    /// # Append an instruction, mapped to the fragment it came from
    fn generate_instruction(&mut self, instruction: Instruction, fragment: FragmentId) -> (result: InstructionAddress)
        ensures
            result == (InstructionAddress { index: old(self).instructions@.len() as usize }),
            final(self).instructions@ == old(self).instructions@.push(instruction),
            final(self).source_map@ == old(self).source_map@.push((result, fragment)),
            final(self).placeholders@ == old(self).placeholders@,
    {
        let address = InstructionAddress { index: self.instructions.len() };
        self.instructions.push(instruction);
        self.source_map.push((address, fragment));
        address
    }
}

impl Compiler {
    /// # Compile a fragment
    ///
    /// Appends the instruction the fragment compiles to, if any, and maps it
    /// to the fragment; returns its address. A block is queued, to be
    /// compiled next, once the current function or block is done, and its
    /// placeholder is replaced then. A function is queued last. A call to a
    /// user-defined function is recorded, so its placeholder can be replaced
    /// once all functions are compiled. A comment compiles to nothing.
    ///
    /// The fragment is taken by value: what it holds moves into the
    /// instructions and the queue.
    pub fn compile_fragment(&mut self, fragment: Fragment) -> (result: Option<InstructionAddress>)
        requires
            old(self).output.instructions@.len() < usize::MAX,
        ensures
            ({
                let address = InstructionAddress { index: old(self).output.instructions@.len() as usize };
                &&& match instruction_for(fragment.payload) {
                    Some(instruction) => {
                        &&& result == Some(address)
                        &&& final(self).output.instructions@ == old(self).output.instructions@.push(instruction)
                        &&& final(self).output.source_map@ == old(self).output.source_map@.push((address, fragment.id))
                    },
                    None => {
                        &&& result is None
                        &&& final(self).output.instructions@ == old(self).output.instructions@
                        &&& final(self).output.source_map@ == old(self).output.source_map@
                    },
                }
                &&& final(self).output.placeholders@ == match fragment.payload {
                    FragmentPayload::Expression {
                        expression: FragmentExpression::ResolvedUserFunction { name, is_tail_call },
                    } => old(self).output.placeholders@.push(
                        CallToUserDefinedFunction { name, address, is_tail_call },
                    ),
                    _ => old(self).output.placeholders@,
                }
                &&& final(self).queue@ == match fragment.payload {
                    FragmentPayload::Expression {
                        expression: FragmentExpression::Block { start, environment },
                    } => seq![CompileUnit::Block { start, environment, address }] + old(self).queue@,
                    FragmentPayload::Function(function) => old(self).queue@.push(
                        CompileUnit::Function(function),
                    ),
                    _ => old(self).queue@,
                }
            }),
    {
        let id = fragment.id;
        match fragment.payload {
            FragmentPayload::Expression { expression } => match expression {
                FragmentExpression::BindingDefinitions { names } => {
                    Some(self.output.generate_instruction(Instruction::BindingsDefine { names }, id))
                },
                FragmentExpression::Block { start, environment } => {
                    // The block's instructions can't go into the middle of
                    // those being generated. It becomes a closure, once it is
                    // compiled; until then, a placeholder stands here.
                    let address = self.output.generate_instruction(Instruction::Panic, id);
                    self.queue.push_front(CompileUnit::Block { start, environment, address });
                    Some(address)
                },
                FragmentExpression::Comment { .. } => None,
                FragmentExpression::ResolvedBinding { name } => {
                    Some(self.output.generate_instruction(Instruction::BindingEvaluate { name }, id))
                },
                FragmentExpression::ResolvedBuiltinFunction { name } => {
                    let instruction = builtin_instruction(name);
                    Some(self.output.generate_instruction(instruction, id))
                },
                FragmentExpression::ResolvedHostFunction { name } => {
                    Some(self.output.generate_instruction(Instruction::CallBuiltin { name }, id))
                },
                FragmentExpression::ResolvedUserFunction { name, is_tail_call } => {
                    // The function may not be compiled yet: a placeholder
                    // stands here, to be replaced with the call.
                    let address = self.output.generate_instruction(Instruction::Panic, id);
                    self.output.placeholders.push(CallToUserDefinedFunction { name, address, is_tail_call });
                    Some(address)
                },
                FragmentExpression::UnresolvedIdentifier { .. } => {
                    Some(self.output.generate_instruction(Instruction::Panic, id))
                },
                FragmentExpression::Value(value) => {
                    Some(self.output.generate_instruction(Instruction::Push { value }, id))
                },
            },
            FragmentPayload::Function(function) => {
                self.queue.push_back(CompileUnit::Function(function));
                None
            },
            FragmentPayload::Terminator => Some(self.output.generate_instruction(Instruction::Return, id)),
        }
    }
}

} // verus!
