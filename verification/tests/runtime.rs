use crosscut::builtins::{self, Builtin, Error};
use crosscut::data_stack::{DataStack, StackUnderflow, Value};
use crosscut::memory::SharedMemory;
use crosscut::operands::{Operands, PopOperandError};
use crosscut::program::{
    Breakpoints, DebugEvent, DebugState, Evaluator, EvaluatorState, Expression, ExpressionKind, Function,
    Functions, Instruction, InstructionAddress, LineLocation, Program, ProgramState,
    SourceLocation, SourceMap,
};

fn stack(values: &[u8]) -> DataStack {
    let mut data_stack = DataStack::new();
    for &value in values {
        data_stack.push(Value(value));
    }
    data_stack
}

fn contents(data_stack: &mut DataStack) -> Vec<u8> {
    let mut values = Vec::new();
    while let Ok(value) = data_stack.pop() {
        values.push(value.0);
    }
    values.reverse();
    for &value in &values {
        data_stack.push(Value(value));
    }
    values
}

#[test]
fn data_stack_pops_what_was_pushed_last() {
    let mut data_stack = stack(&[1, 2]);
    assert_eq!(data_stack.num_values(), 2);
    assert_eq!(DataStack::clone(&mut data_stack), Ok(Value(2)));
    assert_eq!(data_stack.pop(), Ok(Value(2)));
    assert_eq!(data_stack.pop(), Ok(Value(1)));
    assert!(data_stack.is_empty());
    assert_eq!(data_stack.pop(), Err(StackUnderflow));
    assert_eq!(DataStack::clone(&mut data_stack), Err(StackUnderflow));
}

#[test]
fn saved_values_come_back_in_their_order() {
    let mut data_stack = stack(&[1, 2, 3, 4]);
    data_stack.save(2);
    assert_eq!(contents(&mut data_stack), vec![1, 2]);
    data_stack.push(Value(9));
    data_stack.restore();
    assert_eq!(contents(&mut data_stack), vec![1, 2, 9, 3, 4]);
}

#[test]
fn clearing_removes_everything() {
    let mut data_stack = stack(&[1, 2, 3]);
    data_stack.save(1);
    data_stack.clear();
    data_stack.restore();
    assert!(data_stack.is_empty());
}

#[test]
fn values_convert_from_bytes() {
    assert_eq!(Value::from(7), Value(7));
}

#[test]
fn add_pushes_the_sum() {
    let mut data_stack = stack(&[5, 2, 3]);
    assert_eq!(builtins::add(&mut data_stack), Ok(()));
    assert_eq!(contents(&mut data_stack), vec![5, 5]);
}

#[test]
fn add_fails_on_overflow() {
    let mut data_stack = stack(&[200, 100]);
    assert_eq!(builtins::add(&mut data_stack), Err(Error::IntegerOverflow));
    assert!(data_stack.is_empty());
}

#[test]
fn builtins_fail_on_too_few_operands() {
    let mut data_stack = stack(&[1]);
    assert_eq!(
        builtins::add(&mut data_stack),
        Err(Error::PopFromEmptyStack(StackUnderflow))
    );
    assert!(data_stack.is_empty());

    let mut data_stack = DataStack::new();
    assert_eq!(
        builtins::copy(&mut data_stack),
        Err(Error::PopFromEmptyStack(StackUnderflow))
    );
}

#[test]
fn mul_and_sub() {
    let mut data_stack = stack(&[6, 7]);
    assert_eq!(builtins::mul(&mut data_stack), Ok(()));
    assert_eq!(contents(&mut data_stack), vec![42]);

    let mut data_stack = stack(&[3, 5]);
    assert_eq!(builtins::sub(&mut data_stack), Ok(()));
    assert_eq!(contents(&mut data_stack), vec![254]);
}

#[test]
fn swap_twice_restores_the_stack() {
    let mut data_stack = stack(&[1, 2, 3]);
    assert_eq!(builtins::swap(&mut data_stack), Ok(()));
    assert_eq!(contents(&mut data_stack), vec![1, 3, 2]);
    assert_eq!(builtins::swap(&mut data_stack), Ok(()));
    assert_eq!(contents(&mut data_stack), vec![1, 2, 3]);
}

#[test]
fn copy_duplicates_a_value_from_below() {
    let mut data_stack = stack(&[7, 8, 9, 1]);
    assert_eq!(builtins::copy(&mut data_stack), Ok(()));
    assert_eq!(contents(&mut data_stack), vec![7, 8, 9, 8]);
}

#[test]
fn drop_removes_a_value_from_below() {
    let mut data_stack = stack(&[7, 8, 9, 2]);
    assert_eq!(builtins::drop(&mut data_stack), Ok(()));
    assert_eq!(contents(&mut data_stack), vec![8, 9]);
}

#[test]
fn take_undoes_place() {
    let mut data_stack = stack(&[1, 2, 3, 4, 2]);
    assert_eq!(builtins::place(&mut data_stack), Ok(()));
    assert_eq!(contents(&mut data_stack), vec![1, 4, 2, 3]);
    data_stack.push(Value(2));
    assert_eq!(builtins::take(&mut data_stack), Ok(()));
    assert_eq!(contents(&mut data_stack), vec![1, 2, 3, 4]);
}

#[test]
fn store_writes_memory_and_keeps_the_address() {
    let mut mem = [0u8; 4];
    let mut data_stack = stack(&[2, 99]);
    assert_eq!(builtins::store(&mut data_stack, &mut mem), Ok(()));
    assert_eq!(mem, [0, 0, 99, 0]);
    assert_eq!(contents(&mut data_stack), vec![2]);
}

#[test]
fn run_dispatches_to_the_builtin() {
    let mut mem = [0u8; 1];
    let mut data_stack = stack(&[4, 5]);
    assert_eq!(builtins::run(Builtin::Mul, &mut data_stack, &mut mem), Ok(()));
    assert_eq!(contents(&mut data_stack), vec![20]);
}

#[test]
fn operands_pop_in_reverse_order() {
    let mut operands = Operands::new();
    assert!(operands.is_empty());
    operands.push(Value(1));
    operands.push(Value(2));
    assert_eq!(operands.values(), vec![Value(1), Value(2)]);
    assert_eq!(operands.pop_any(), Ok(Value(2)));
    assert_eq!(operands.pop_any(), Ok(Value(1)));
    assert_eq!(operands.pop_any(), Err(PopOperandError::MissingOperand));
}

#[test]
fn shared_memory_starts_zeroed_and_initializes_to_green() {
    let mut memory = SharedMemory::new(8);
    assert_eq!(memory.access_write().as_slice(), &[0; 8]);
    memory.initialize();
    assert_eq!(memory.access_write().as_slice(), &[0, 255, 0, 255, 0, 255, 0, 255]);
    memory.access_write()[0] = 7;
    assert_eq!(memory.access_write()[0], 7);
}

fn location(index: u32) -> SourceLocation {
    SourceLocation {
        function: "main".to_string(),
        index,
    }
}

fn program(breakpoint_at: Option<u32>) -> Program {
    let kinds = [
        ExpressionKind::Value(Value(2)),
        ExpressionKind::Value(Value(3)),
        ExpressionKind::Word {
            name: "add".to_string(),
        },
    ];
    let syntax = kinds
        .into_iter()
        .enumerate()
        .map(|(i, kind)| Expression {
            kind,
            location: location(i as u32),
            breakpoint: breakpoint_at == Some(i as u32),
        })
        .collect();
    let functions = Functions {
        inner: vec![Function {
            name: "main".to_string(),
            syntax,
        }],
    };
    let source_map = SourceMap {
        address_to_location: (0..3)
            .map(|i| (InstructionAddress { index: i }, location(i as u32)))
            .collect(),
    };
    Program {
        functions,
        source_map,
        breakpoints: Breakpoints::new(),
        evaluator: Evaluator {
            instructions: vec![
                Instruction::Push { value: Value(2) },
                Instruction::Push { value: Value(3) },
                Instruction::CallBuiltin {
                    builtin: Builtin::Add,
                },
                Instruction::Return,
            ],
            next_instruction: InstructionAddress { index: 0 },
            data_stack: DataStack::new(),
        },
        state: ProgramState::Running,
        entry_address: InstructionAddress { index: 0 },
    }
}

#[test]
fn program_runs_to_completion() {
    let mut program = program(None);
    let mut mem = [0u8; 4];

    let mut steps = 0;
    while program.step(&mut mem).is_running() {
        steps += 1;
    }

    assert_eq!(steps, 3);
    assert!(matches!(program.state, ProgramState::Finished));
    assert_eq!(contents(&mut program.evaluator.data_stack), vec![5]);
}

#[test]
fn program_pauses_at_a_breakpoint() {
    let mut program = program(Some(2));
    let mut mem = [0u8; 4];

    assert!(program.step(&mut mem).is_running());
    assert!(program.step(&mut mem).is_running());
    let state = program.step(&mut mem);
    assert!(state.is_paused());
    match state {
        ProgramState::Paused { location } => assert_eq!(location.index, 2),
        _ => unreachable!(),
    }
    assert_eq!(contents(&mut program.evaluator.data_stack), vec![2, 3]);
}

#[test]
fn program_reset_returns_to_the_entry() {
    let mut program = program(None);
    let mut mem = [0u8; 4];
    program.step(&mut mem);
    program.reset();
    assert_eq!(program.evaluator.next_instruction, InstructionAddress { index: 0 });
    program.push(vec![Value(9), Value(8)]);
    assert_eq!(contents(&mut program.evaluator.data_stack), vec![2, 9, 8]);
}

#[test]
fn evaluator_reports_the_failing_instruction() {
    let mut evaluator = Evaluator {
        instructions: vec![Instruction::CallBuiltin {
            builtin: Builtin::Add,
        }],
        next_instruction: InstructionAddress { index: 0 },
        data_stack: DataStack::new(),
    };
    let mut mem = [0u8; 1];
    assert_eq!(
        evaluator.step(&mut mem),
        EvaluatorState::Error {
            err: Error::PopFromEmptyStack(StackUnderflow),
            instruction: InstructionAddress { index: 0 },
        }
    );
}

#[test]
fn toggling_a_breakpoint_twice_restores_it() {
    let mut program = program(None);
    let event = || DebugEvent::ToggleBreakpoint {
        address: InstructionAddress { index: 1 },
        location: LineLocation {
            function: "main".to_string(),
            line: 1,
        },
    };

    program.apply_debug_event(event());
    assert!(program.functions.inner[0].syntax[1].breakpoint);
    program.apply_debug_event(event());
    assert!(!program.functions.inner[0].syntax[1].breakpoint);

    let mut debug_state = DebugState::new(program.functions.clone());
    debug_state.apply_event(event());
    assert!(debug_state.functions[0].syntax[1].breakpoint);
}
