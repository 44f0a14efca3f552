use crosscut::editor::{Command, Language};
use crosscut::language::{Host, InterpreterState, StepResult, Value};

#[test]
fn identity() {
    // There should be an identity function that returns its argument unchanged,
    // to be used as a placeholder wherever a function is needed.

    let host = Host::empty();
    let mut lang = Language::new();

    lang.on_input("identity 1", &host);

    let step = lang.interpreter.step(&lang.code);
    assert_eq!(step, StepResult::CallToIntrinsicFunction);

    let step = lang.interpreter.step(&lang.code);
    assert_eq!(
        step,
        StepResult::Finished {
            output: Value::Integer { value: 1 }
        }
    );
}

#[test]
fn reset_interpreter_on_code_update_if_finished() {
    // If the interpreter is currently in a finished state, every update to the
    // code should reset it, so it starts again from the top.

    let host = Host::empty();
    let mut lang = Language::new();

    lang.on_char('1', &host);
    lang.run_until_finished();
    assert!(lang.state().is_finished());

    lang.on_char('2', &host);
    let initial_expression = lang.code.root_ids()[0];

    assert!(lang.state().is_running());
    assert_eq!(lang.interpreter.next(), Some(initial_expression));
}

#[test]
fn reset_interpreter_on_code_update_if_error() {
    // If the interpreter is currently in an error state, every update to the
    // code should reset it, so it starts again from the top.

    let host = Host::empty();
    let mut lang = Language::new();

    lang.on_input("identity", &host);
    let step = lang.interpreter.step(&lang.code);

    assert_eq!(step, StepResult::Error);
    assert_eq!(lang.state(), InterpreterState::Error);

    lang.on_char(' ', &host);
    lang.on_input("1", &host);
    assert!(lang.state().is_running());

    let start = lang.code.root_ids()[0];
    assert_eq!(lang.interpreter.next(), Some(start));
}

#[test]
fn update_interpreter_on_code_update() {
    // If code is changed through the editor, the interpreter, if it is running,
    // follows whatever expression has replaced the one it points to.

    let host = Host::empty();
    let mut lang = Language::new();

    lang.on_input("identity 1", &host);
    let output = lang.run_until_finished();

    assert_eq!(output, Value::Integer { value: 1 });
}

#[test]
fn running_interpreter_follows_replaced_expression() {
    let host = Host::empty();
    let mut lang = Language::new();

    lang.on_input("identity 4", &host);
    assert_eq!(
        lang.interpreter.step(&lang.code),
        StepResult::CallToIntrinsicFunction
    );
    let next = lang.interpreter.next();
    assert_eq!(next, Some(lang.code.root_ids()[1]));

    // Editing the expression the interpreter points to moves it along.
    lang.on_char('2', &host);
    assert_eq!(lang.interpreter.next(), Some(lang.code.root_ids()[1]));
    assert_ne!(lang.interpreter.next(), next);
    assert_eq!(lang.run_until_finished(), Value::Integer { value: 42 });
}

#[test]
fn empty_code_evaluates_to_nothing() {
    let mut lang = Language::new();
    assert_eq!(lang.run_until_finished(), Value::Nothing);
}

#[test]
fn host_function_is_resolved_by_name() {
    let host = Host::new(vec![String::from("color"), String::from("sound")]);
    let mut lang = Language::new();

    lang.on_input("sound 1", &host);
    assert_eq!(
        lang.interpreter.step(&lang.code),
        StepResult::CallToHostFunction { id: 1 }
    );
}

#[test]
fn unresolved_token_is_an_error() {
    let host = Host::empty();
    let mut lang = Language::new();

    lang.on_input("unknown 1", &host);
    assert_eq!(lang.interpreter.step(&lang.code), StepResult::Error);
    assert_eq!(lang.state(), InterpreterState::Error);
}

#[test]
fn clear_leaves_a_single_empty_expression() {
    let host = Host::empty();
    let mut lang = Language::new();

    lang.on_input("identity 1", &host);
    lang.on_command(Command::Clear);
    assert_eq!(lang.code.root_ids().len(), 1);
    assert_eq!(lang.run_until_finished(), Value::Nothing);

    lang.on_input("7", &host);
    assert_eq!(lang.run_until_finished(), Value::Integer { value: 7 });
}

#[test]
fn negative_integer_literal() {
    let host = Host::empty();
    let mut lang = Language::new();

    lang.on_input("-12", &host);
    assert_eq!(lang.run_until_finished(), Value::Integer { value: -12 });
}
