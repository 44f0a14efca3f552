use crosscut::compiler::call_graph::Cluster;
use crosscut::compiler::fragments::FunctionIndexInCluster;
use crosscut::compiler::instructions::{Effect, Instruction};
use crosscut::compiler::intrinsics::IntrinsicFunction;
use crosscut::compiler::location::{
    BranchIndex, BranchLocation, FragmentIndexInBranchBody, FunctionIndexInRootContext,
    FunctionLocation, MemberLocation,
};
use crosscut::compiler::source_map::SourceMap;
use crosscut::debugger::{
    ActiveBranch, Breakpoints, Code, Command, DebugExpressionKind, DebuggerError, Expression,
    PersistentState, StableFunction, StableFunctions, TransientState, UserAction,
};
use crosscut::program::InstructionAddress;
use crosscut::text::decimal_string;

fn member(index: u32) -> MemberLocation {
    MemberLocation {
        parent: Box::new(BranchLocation {
            parent: Box::new(FunctionLocation::NamedFunction {
                index: FunctionIndexInRootContext(0),
            }),
            index: BranchIndex(1),
        }),
        index: FragmentIndexInBranchBody(index),
    }
}

fn functions() -> StableFunctions {
    StableFunctions {
        named: vec![
            StableFunction { name: String::from("main"), hash: crosscut::compiler::hash::Hash::new(b"main") },
            StableFunction { name: String::from("loop"), hash: crosscut::compiler::hash::Hash::new(b"loop") },
        ],
    }
}

fn kind(expression: Expression) -> DebugExpressionKind {
    let cluster = Cluster { functions: vec![FunctionIndexInRootContext(1)] };
    DebugExpressionKind::new(expression, &member(1), &cluster, &functions())
}

#[test]
fn numbers_are_written_in_decimal() {
    assert_eq!(decimal_string(0), "0");
    assert_eq!(decimal_string(1207), "1207");
    assert_eq!(decimal_string(-45), "-45");
    assert_eq!(decimal_string(i32::MIN), "-2147483648");
}

#[test]
fn debug_expressions_show_names_comments_and_values() {
    assert!(matches!(
        kind(Expression::Comment { text: String::from("note") }),
        DebugExpressionKind::Comment { text } if text == "# note"
    ));
    assert!(matches!(
        kind(Expression::LiteralNumber { value: -3 }),
        DebugExpressionKind::Value { as_string } if as_string == "-3"
    ));
    assert!(matches!(
        kind(Expression::CallToUserDefinedFunction { hash: crosscut::compiler::hash::Hash::new(b"loop"), is_tail_call: false }),
        DebugExpressionKind::CallToFunction { name } if name == "loop"
    ));
    assert!(matches!(
        kind(Expression::CallToUserDefinedFunctionRecursive {
            index: FunctionIndexInCluster(0),
            is_tail_call: true,
        }),
        DebugExpressionKind::CallToFunctionRecursive { name } if name == "loop"
    ));
    assert!(matches!(
        kind(Expression::CallToIntrinsicFunction { intrinsic: IntrinsicFunction::AddU8, is_tail_call: false }),
        DebugExpressionKind::CallToIntrinsic { name } if name == "add_u8"
    ));
    assert!(matches!(
        kind(Expression::LocalFunction { hash: crosscut::compiler::hash::Hash::new(b"f") }),
        DebugExpressionKind::Function { function } if function.name.is_none()
    ));
    assert!(matches!(kind(Expression::UnresolvedLocalFunction), DebugExpressionKind::UnresolvedLocalFunction));
}

fn state() -> PersistentState {
    let mut source_map = SourceMap::new();
    for (index, address) in [(1, 0), (2, 1)] {
        let mapping = source_map.map_fragment_to_instructions(member(index));
        mapping.append_instruction(&mut source_map, InstructionAddress { index: address });
    }
    PersistentState {
        code: Some(Code {
            instructions: vec![
                Instruction::TriggerEffect { effect: Effect::Breakpoint },
                Instruction::Nop,
            ],
            source_map,
        }),
        breakpoints: Breakpoints { durable: Vec::new(), ephemeral: Vec::new() },
    }
}

fn no_branch() -> TransientState {
    TransientState { active_branch: None }
}

#[test]
fn plain_actions_pass_on_to_the_runtime() {
    let mut state = state();
    let commands = state.on_user_action(UserAction::Continue, &no_branch()).unwrap();
    assert!(matches!(commands.as_slice(), [Command::Continue]));
    let commands = state.on_user_action(UserAction::Reset, &no_branch()).unwrap();
    assert!(matches!(commands.as_slice(), [Command::Reset]));
    let commands = state.on_user_action(UserAction::Stop, &no_branch()).unwrap();
    assert!(matches!(commands.as_slice(), [Command::Stop]));
}

#[test]
fn breakpoints_are_set_and_cleared_at_the_first_instruction() {
    let mut state = state();
    let commands = state
        .on_user_action(UserAction::BreakpointSet { fragment: member(2) }, &no_branch())
        .unwrap();
    assert_eq!(state.breakpoints.durable, vec![InstructionAddress { index: 1 }]);
    match commands.as_slice() {
        [Command::UpdateCode { instructions }] => assert!(matches!(
            instructions[1],
            Instruction::TriggerEffect { effect: Effect::Breakpoint }
        )),
        _ => panic!("expected the code"),
    }
    state
        .on_user_action(UserAction::BreakpointClear { fragment: member(2) }, &no_branch())
        .unwrap();
    assert!(state.breakpoints.durable.is_empty());

    let err = state
        .on_user_action(UserAction::BreakpointSet { fragment: member(5) }, &no_branch())
        .unwrap_err();
    assert_eq!(err, DebuggerError::FragmentHasNoInstructions);
}

#[test]
fn step_into_sets_an_ephemeral_breakpoint_at_the_next_fragment() {
    let mut state = state();
    let transient = TransientState {
        active_branch: Some(ActiveBranch { body: vec![member(1), member(2)], active_fragment: Some(0) }),
    };
    let commands = state.on_user_action(UserAction::StepInto, &transient).unwrap();
    assert_eq!(state.breakpoints.ephemeral, vec![InstructionAddress { index: 1 }]);
    assert!(matches!(
        commands.as_slice(),
        [Command::UpdateCode { .. }, Command::IgnoreNextInstruction]
    ));

    let last = TransientState {
        active_branch: Some(ActiveBranch { body: vec![member(1), member(2)], active_fragment: Some(1) }),
    };
    let commands = state.on_user_action(UserAction::StepInto, &last).unwrap();
    assert!(matches!(commands.as_slice(), [Command::Step]));

    let err = state.on_user_action(UserAction::StepInto, &no_branch()).unwrap_err();
    assert_eq!(err, DebuggerError::NoActiveBranch);
}
