use crosscut::compiler::call_graph::{CallGraph, Cluster};
use crosscut::compiler::fragments::{self, FragmentId, Fragments};
use crosscut::compiler::host::{Host, HostFunction, ListHost, NoHost};
use crosscut::compiler::intrinsics::IntrinsicFunction;
use crosscut::compiler::location::{
    BranchIndex, BranchLocation, FragmentIndexInBranchBody, FunctionIndexInRootContext,
    FunctionLocation, MemberLocation,
};
use crosscut::compiler::scopes::{BindingResolved, NameSet, Scopes};
use crosscut::compiler::source_map::SourceMap;
use crosscut::compiler::table::Table;
use crosscut::debugger::{ActiveFunctionsMessage, DebugExpressionState};
use crosscut::host::{GameEngineFunction, GameEngineHost};
use crosscut::intrinsics::{self, IntrinsicFunction as Intrinsic, IntrinsicOutcome, Type, Value};
use crosscut::nodes::{hash_node, Node};
use crosscut::program::InstructionAddress;

fn named(index: u32) -> FunctionLocation {
    FunctionLocation::NamedFunction {
        index: FunctionIndexInRootContext(index),
    }
}

fn member(index: u32) -> MemberLocation {
    MemberLocation {
        parent: Box::new(BranchLocation {
            parent: Box::new(named(0)),
            index: BranchIndex(1),
        }),
        index: FragmentIndexInBranchBody(index),
    }
}

fn address(index: usize) -> InstructionAddress {
    InstructionAddress { index }
}

#[test]
fn table_gives_back_what_was_inserted() {
    let mut table: Table<FunctionLocation, u32> = Table::new();
    table.insert(named(0), 10);
    table.insert(named(1), 11);
    table.insert(named(0), 12);

    assert_eq!(table.len(), 2);
    assert_eq!(table.get(&named(0)), Some(&12));
    assert_eq!(table.find(&named(1)), Some(1));
    assert_eq!(table.entry_at(1).1, 11);
    assert_eq!(table.remove(&named(0)), Some(12));
    assert_eq!(table.get(&named(0)), None);
    assert_eq!(table.remove(&named(0)), None);
}

#[test]
fn source_map_maps_both_ways() {
    let mut source_map = SourceMap::new();
    let mapping = source_map.map_fragment_to_instructions(member(1));
    mapping.append_instruction(&mut source_map, address(3));
    mapping.append_instruction(&mut source_map, address(4));

    assert_eq!(source_map.instruction_to_fragment(&address(4)), Some(&member(1)));
    assert_eq!(
        source_map.fragment_to_instructions(&member(1)),
        vec![address(3), address(4)]
    );
    assert_eq!(source_map.instruction_to_fragment(&address(5)), None);

    let mapping = source_map.map_fragment_to_instructions(member(1));
    mapping.append_instruction(&mut source_map, address(7));
    assert_eq!(source_map.fragment_to_instructions(&member(1)), vec![address(7)]);
}

#[test]
fn source_map_finds_the_function_of_an_instruction() {
    let mut source_map = SourceMap::new();
    source_map.map_function_to_instructions(named(0), [address(0), address(4)]);
    source_map.map_function_to_instructions(named(1), [address(5), address(9)]);

    assert_eq!(source_map.instruction_to_function(&address(6)), Some(&named(1)));
    assert_eq!(source_map.instruction_to_function(&address(4)), Some(&named(0)));
    assert_eq!(source_map.instruction_to_function(&address(10)), None);
}

#[test]
fn calls_to_a_function_are_consumed_once() {
    let mut source_map = SourceMap::new();
    let f = crosscut::compiler::hash::Hash::new(b"f");
    let g = crosscut::compiler::hash::Hash::new(b"g");
    source_map.map_function_to_calling_instructions(f, address(2));
    source_map.map_function_to_calling_instructions(g, address(3));
    source_map.map_function_to_calling_instructions(f, address(8));

    assert_eq!(
        source_map.consume_calls_to_function(&f),
        vec![address(2), address(8)]
    );
    assert!(source_map.consume_calls_to_function(&f).is_empty());

    source_map.map_function_to_calling_instructions(f, address(11));
    assert_eq!(source_map.consume_calls_to_function(&f), vec![address(11)]);
    assert_eq!(source_map.consume_calls_to_function(&g), vec![address(3)]);
}

#[test]
fn names_resolve_in_the_innermost_scope_first() {
    let mut outer = NameSet::new();
    outer.insert("a".to_string());
    outer.insert("b".to_string());
    let mut inner = NameSet::new();
    inner.insert("b".to_string());
    assert!(inner.contains("b"));
    assert!(!inner.contains("a"));
    assert_eq!(outer.names().len(), 2);

    let mut scopes = Scopes::new();
    scopes.push(outer);
    scopes.push(inner);

    assert_eq!(scopes.resolve_binding("b"), Some(BindingResolved::InScope));
    assert_eq!(scopes.resolve_binding("a"), Some(BindingResolved::InEnvironment));
    assert_eq!(scopes.resolve_binding("c"), None);
    assert!(scopes.innermost_binds(&"b".to_string()));

    scopes.pop();
    assert_eq!(scopes.resolve_binding("b"), Some(BindingResolved::InScope));
}

#[test]
fn call_graph_lists_functions_from_the_leaves_up() {
    let call_graph = CallGraph::new(vec![
        Cluster {
            functions: vec![FunctionIndexInRootContext(2)],
        },
        Cluster {
            functions: vec![FunctionIndexInRootContext(0), FunctionIndexInRootContext(1)],
        },
    ]);

    let functions: Vec<u32> = call_graph
        .functions_from_leaves()
        .into_iter()
        .map(|(index, _)| index.0)
        .collect();
    assert_eq!(functions, vec![0, 1, 2]);

    let cluster = call_graph
        .find_cluster_by_named_function(&FunctionIndexInRootContext(1))
        .unwrap();
    assert_eq!(cluster.functions.len(), 2);
    assert_eq!(call_graph.clusters().len(), 2);
}

#[test]
fn fragments_find_the_cluster_of_a_function() {
    let f = FragmentId { hash: crosscut::compiler::hash::Hash::new(b"f") };
    let g = FragmentId { hash: crosscut::compiler::hash::Hash::new(b"g") };
    let fragments = Fragments {
        root: Some(f),
        clusters: vec![
            fragments::Cluster { functions: vec![f] },
            fragments::Cluster { functions: vec![g] },
        ],
    };

    let cluster = fragments.find_cluster_by_function_id(&g).unwrap();
    assert_eq!(cluster.functions, vec![g]);
    let h = FragmentId { hash: crosscut::compiler::hash::Hash::new(b"h") };
    assert!(fragments.find_cluster_by_function_id(&h).is_none());
}

#[test]
fn intrinsics_are_found_by_name() {
    assert!(IntrinsicFunction::all().len() > 0);
    for intrinsic in IntrinsicFunction::all() {
        assert_eq!(IntrinsicFunction::from_name(intrinsic.name()), Some(intrinsic));
    }
    assert_eq!(IntrinsicFunction::from_name("nop"), Some(IntrinsicFunction::Nop));
    assert_eq!(IntrinsicFunction::from_name("no_such_intrinsic"), None);
}

#[test]
fn hosts_resolve_their_functions() {
    assert!(NoHost.function_by_name("halt").is_none());

    let host = ListHost::new(vec![
        HostFunction {
            name: "draw".to_string(),
            number: 3,
        },
        HostFunction {
            name: "draw".to_string(),
            number: 4,
        },
    ]);
    assert_eq!(host.function_by_name("draw").map(|f| f.number), Some(3));
    assert_eq!(
        host.function_by_number(4).map(|f| f.name),
        Some("draw".to_string())
    );
    assert!(host.function_by_number(5).is_none());
}

#[test]
fn game_engine_functions_have_names_and_numbers() {
    let host = GameEngineHost::default();
    for function in GameEngineFunction::all() {
        assert_eq!(host.function_by_name(function.name()), Some(function));
        assert_eq!(host.function_by_number(function.number()), Some(function));
    }
    assert_eq!(GameEngineFunction::SetPixel.name(), "set_pixel");
    assert_eq!(GameEngineFunction::SubmitFrame.number(), 6);
    assert_eq!(host.function_by_number(7), None);
    assert_eq!(host.functions().len(), 7);
}

#[test]
fn debugger_shows_why_there_are_no_active_functions() {
    assert_eq!(
        ActiveFunctionsMessage::for_process(false, true, false, false),
        Some(ActiveFunctionsMessage::NoServer)
    );
    assert_eq!(
        ActiveFunctionsMessage::for_process(true, false, false, false),
        Some(ActiveFunctionsMessage::NoProcess)
    );
    assert_eq!(
        ActiveFunctionsMessage::for_process(true, true, true, false),
        Some(ActiveFunctionsMessage::ProcessRunning)
    );
    assert_eq!(
        ActiveFunctionsMessage::for_process(true, true, false, true),
        Some(ActiveFunctionsMessage::ProcessFinished)
    );
    assert_eq!(ActiveFunctionsMessage::for_process(true, true, false, false), None);
    assert_eq!(
        ActiveFunctionsMessage::ProcessRunning.text(),
        "Process is running."
    );
}

#[test]
fn debugger_marks_the_active_expression() {
    let state = DebugExpressionState::new(&member(1), Some(&member(1)), true);
    assert_eq!(state, DebugExpressionState::InnermostActiveExpression);
    assert!(state.is_innermost_active_expression());

    let state = DebugExpressionState::new(&member(1), Some(&member(1)), false);
    assert_eq!(state, DebugExpressionState::ActiveCaller);
    assert!(state.is_active());
    assert!(!state.is_innermost_active_expression());

    let state = DebugExpressionState::new(&member(2), Some(&member(1)), true);
    assert_eq!(state, DebugExpressionState::NotActive);
    assert!(!state.is_active());
}

fn pair(a: i32, b: i32) -> Value {
    Value::Tuple {
        values: vec![Value::Integer { value: a }, Value::Integer { value: b }],
    }
}

#[test]
fn intrinsic_functions_apply_to_their_input() {
    assert_eq!(Intrinsic::Add.name(), "+");
    assert!(matches!(
        intrinsics::apply_intrinsic_function(&Intrinsic::Add, pair(2, 3)),
        IntrinsicOutcome::Return {
            value: Value::Integer { value: 5 }
        }
    ));
    assert!(matches!(
        intrinsics::apply_intrinsic_function(&Intrinsic::Add, Value::Integer { value: 1 }),
        IntrinsicOutcome::UnexpectedInput {
            expected: Type::Tuple { .. },
            actual: Value::Integer { value: 1 }
        }
    ));
    match intrinsics::apply_intrinsic_function(&Intrinsic::Drop, Value::Integer { value: 1 }) {
        IntrinsicOutcome::Return {
            value: Value::Tuple { values },
        } => assert!(values.is_empty()),
        other => panic!("unexpected outcome: {other:?}"),
    }
    assert!(matches!(
        intrinsics::apply_intrinsic_function(&Intrinsic::Identity, Value::Integer { value: 7 }),
        IntrinsicOutcome::Return {
            value: Value::Integer { value: 7 }
        }
    ));

    let body = hash_node(&Node::Empty);
    match intrinsics::apply_intrinsic_function(&Intrinsic::Eval, Value::Function { body }) {
        IntrinsicOutcome::Apply { body: applied, .. } => assert_eq!(applied, body),
        other => panic!("unexpected outcome: {other:?}"),
    }
    assert!(matches!(
        intrinsics::apply_intrinsic_function(&Intrinsic::Eval, Value::Integer { value: 1 }),
        IntrinsicOutcome::UnexpectedInput {
            expected: Type::Function,
            ..
        }
    ));
}

#[test]
fn overlapping_ranges_give_the_first_function_in_location_order() {
    let mut source_map = SourceMap::new();
    let anonymous = FunctionLocation::AnonymousFunction {
        location: Box::new(member(2)),
    };
    source_map.map_function_to_instructions(anonymous, [address(0), address(9)]);
    source_map.map_function_to_instructions(named(1), [address(0), address(9)]);
    source_map.map_function_to_instructions(named(0), [address(2), address(5)]);

    assert_eq!(source_map.instruction_to_function(&address(3)), Some(&named(0)));
    assert_eq!(source_map.instruction_to_function(&address(7)), Some(&named(1)));
}
