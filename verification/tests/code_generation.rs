use std::collections::VecDeque;

use crosscut::compiler::bytecode::{
    self, CompileUnit, Compiler, FragmentExpression, FragmentPayload, Output,
};
use crosscut::compiler::call_graph::Cluster;
use crosscut::compiler::fragments::FragmentId;
use crosscut::compiler::instructions::{
    compile_fragment, ClusterContext, Effect, Fragment, Instruction, NamedFunctionsContext,
    RuntimeBranch, RuntimeFunction,
};
use crosscut::compiler::intrinsics::IntrinsicFunction;
use crosscut::compiler::location::{
    BranchIndex, BranchLocation, FragmentIndexInBranchBody, FunctionIndexInRootContext,
    FunctionLocation, MemberLocation,
};
use crosscut::compiler::source_map::SourceMap;
use crosscut::compiler::syntax::Function;
use crosscut::compiler::table::Table;
use crosscut::data_stack::Value;
use crosscut::program::InstructionAddress;

fn member(index: u32) -> MemberLocation {
    MemberLocation {
        parent: Box::new(BranchLocation {
            parent: Box::new(FunctionLocation::NamedFunction {
                index: FunctionIndexInRootContext(0),
            }),
            index: BranchIndex(1),
        }),
        index: FragmentIndexInBranchBody(index),
    }
}

fn id(text: &[u8]) -> FragmentId {
    FragmentId { hash: crosscut::compiler::hash::Hash::new(text) }
}

fn bytecode_compiler() -> Compiler {
    Compiler {
        queue: VecDeque::new(),
        output: Output {
            instructions: Vec::new(),
            placeholders: Vec::new(),
            source_map: Vec::new(),
        },
    }
}

fn expression(expression: FragmentExpression) -> bytecode::Fragment {
    bytecode::Fragment {
        id: id(b"fragment"),
        payload: FragmentPayload::Expression { expression },
    }
}

#[test]
fn bytecode_fragments_compile_to_one_instruction_each() {
    let mut compiler = bytecode_compiler();
    let first = compiler.compile_fragment(expression(FragmentExpression::Value(Value(7))));
    assert_eq!(first, Some(InstructionAddress { index: 0 }));
    let second = compiler.compile_fragment(expression(FragmentExpression::ResolvedBuiltinFunction {
        name: String::from("return_if_zero"),
    }));
    assert_eq!(second, Some(InstructionAddress { index: 1 }));
    let comment = compiler.compile_fragment(expression(FragmentExpression::Comment {
        text: String::from("nothing"),
    }));
    assert_eq!(comment, None);
    compiler.compile_fragment(expression(FragmentExpression::ResolvedBuiltinFunction {
        name: String::from("add"),
    }));

    assert_eq!(compiler.output.instructions.len(), 3);
    assert!(matches!(compiler.output.instructions[0], bytecode::Instruction::Push { value: Value(7) }));
    assert!(matches!(compiler.output.instructions[1], bytecode::Instruction::ReturnIfZero));
    assert!(matches!(&compiler.output.instructions[2], bytecode::Instruction::CallBuiltin { name } if name == "add"));
    assert_eq!(compiler.output.source_map.len(), 3);
    assert_eq!(compiler.output.source_map[2].0, InstructionAddress { index: 2 });
}

#[test]
fn bytecode_calls_and_blocks_get_placeholders() {
    let mut compiler = bytecode_compiler();
    compiler.compile_fragment(expression(FragmentExpression::ResolvedUserFunction {
        name: String::from("f"),
        is_tail_call: true,
    }));
    compiler.compile_fragment(expression(FragmentExpression::Block {
        start: id(b"block"),
        environment: vec![String::from("x")],
    }));
    assert!(matches!(compiler.output.instructions[0], bytecode::Instruction::Panic));
    assert_eq!(compiler.output.placeholders.len(), 1);
    assert_eq!(compiler.output.placeholders[0].name, "f");
    assert!(compiler.output.placeholders[0].is_tail_call);
    assert!(matches!(
        compiler.queue.front(),
        Some(CompileUnit::Block { address: InstructionAddress { index: 1 }, .. })
    ));

    let terminator = bytecode::Fragment {
        id: id(b"end"),
        payload: FragmentPayload::Terminator,
    };
    assert_eq!(compiler.compile_fragment(terminator), Some(InstructionAddress { index: 2 }));
    assert!(matches!(compiler.output.instructions[2], bytecode::Instruction::Return));
}

fn contexts() -> (ClusterContext, NamedFunctionsContext) {
    (
        ClusterContext {
            recursive_calls_by_callee: Table::new(),
            queue_of_functions_to_compile: VecDeque::new(),
        },
        NamedFunctionsContext {
            instructions: Vec::new(),
            source_map: SourceMap::new(),
            compiled_functions_by_hash: Table::new(),
            named_functions: vec![Function {
                name: Some(String::from("f")),
                branches: Vec::new(),
            }],
        },
    )
}

#[test]
fn instructions_for_host_calls_and_intrinsics() {
    let cluster = Cluster { functions: vec![FunctionIndexInRootContext(0)] };
    let (mut cluster_context, mut named) = contexts();

    let address = compile_fragment(
        Fragment::CallToHostFunction { effect_number: 3 },
        member(1),
        &cluster,
        &mut cluster_context,
        &mut named,
    );
    assert_eq!(address, Some(InstructionAddress { index: 0 }));
    assert!(matches!(named.instructions[0], Instruction::Push { value: Value(3) }));
    assert!(matches!(named.instructions[1], Instruction::TriggerEffect { effect: Effect::Host }));
    assert_eq!(
        named.source_map.fragment_to_instructions(&member(1)),
        vec![InstructionAddress { index: 0 }, InstructionAddress { index: 1 }]
    );

    let address = compile_fragment(
        Fragment::CallToIntrinsicFunction { intrinsic: IntrinsicFunction::Brk, is_tail_call: false },
        member(2),
        &cluster,
        &mut cluster_context,
        &mut named,
    );
    assert_eq!(address, Some(InstructionAddress { index: 2 }));
    assert!(matches!(named.instructions[2], Instruction::TriggerEffect { effect: Effect::Breakpoint }));

    let comment = compile_fragment(
        Fragment::Comment { text: String::from("no code") },
        member(3),
        &cluster,
        &mut cluster_context,
        &mut named,
    );
    assert_eq!(comment, None);
    assert_eq!(named.instructions.len(), 3);
}

#[test]
fn instructions_call_compiled_functions_and_hold_recursive_calls() {
    let cluster = Cluster { functions: vec![FunctionIndexInRootContext(0)] };
    let (mut cluster_context, mut named) = contexts();
    let g = crosscut::compiler::hash::Hash::new(b"g");
    named.compiled_functions_by_hash.insert(
        g,
        RuntimeFunction {
            branches: vec![RuntimeBranch { parameters: Vec::new(), start: InstructionAddress { index: 9 } }],
        },
    );

    compile_fragment(
        Fragment::CallToUserDefinedFunction { hash: g, is_tail_call: true },
        member(1),
        &cluster,
        &mut cluster_context,
        &mut named,
    );
    match &named.instructions[0] {
        Instruction::CallFunction { function, is_tail_call } => {
            assert!(*is_tail_call);
            assert_eq!(function.branches[0].start, InstructionAddress { index: 9 });
        }
        _ => panic!("expected a call"),
    }
    assert_eq!(
        named.source_map.consume_calls_to_function(&g),
        vec![InstructionAddress { index: 0 }]
    );

    compile_fragment(
        Fragment::CallToUserDefinedFunctionRecursive {
            index: crosscut::compiler::fragments::FunctionIndexInCluster(0),
            is_tail_call: false,
        },
        member(2),
        &cluster,
        &mut cluster_context,
        &mut named,
    );
    assert!(matches!(named.instructions[1], Instruction::TriggerEffect { effect: Effect::CompilerBug }));
    assert_eq!(cluster_context.recursive_calls_by_callee.len(), 1);

    compile_fragment(
        Fragment::Function { function: Function { name: None, branches: Vec::new() } },
        member(3),
        &cluster,
        &mut cluster_context,
        &mut named,
    );
    let queued = cluster_context.queue_of_functions_to_compile.front().unwrap();
    assert_eq!(
        queued.address_of_instruction_to_make_anon_function,
        Some(InstructionAddress { index: 2 })
    );
}
