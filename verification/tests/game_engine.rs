use crosscut::game_engine::{GameEngine, GameOutput, TerminalInputEvent};

fn gray_channels(output: GameOutput) -> Vec<f64> {
    let GameOutput::SubmitColor { color } = output;
    color
        .iter()
        .map(|&channel| f64::from(channel) / 255.)
        .collect()
}

#[test]
fn return_to_edit_mode_after_command_execution() {
    // After a command has been executed, the editor should return to edit mode.

    let mut game_engine = GameEngine::without_editor_ui();

    // Start editing the code.
    game_engine.on_code("12");

    // Execute a command in between editing.
    game_engine
        .on_editor_input(TerminalInputEvent::Escape)
        .unwrap();
    game_engine.on_input("nop");
    game_engine
        .on_editor_input(TerminalInputEvent::Enter)
        .unwrap();

    // Drain output. We're only interested in the result of the next change.
    let _ = game_engine.game_output();

    // Continue editing. Won't work, unless we're back in edit mode.
    game_engine.on_code("7");

    let color = gray_channels(game_engine.game_output().into_iter().next().unwrap());
    let c = 127. / 255.;
    assert_eq!(color.as_slice(), [c, c, c, 1.0].as_slice());
}

#[test]
fn abort_command_without_executing_on_escape_key() {
    // When entering a command, the command should be aborted when pressing the
    // escape key. This should return us to edit mode, without a command being
    // executed.

    let mut game_engine = GameEngine::without_editor_ui();

    // Start editing the code.
    game_engine.on_code("12");

    // Enter a command, but abort it.
    game_engine
        .on_editor_input(TerminalInputEvent::Escape)
        .unwrap();
    game_engine.on_input("clear");
    game_engine
        .on_editor_input(TerminalInputEvent::Escape)
        .unwrap();

    // Drain output. We're only interested in the result of the next change.
    let _ = game_engine.game_output();

    // Continue editing. If the previous command was executed, this won't have
    // the desired result.
    game_engine.on_code("7");

    let color = gray_channels(game_engine.game_output().into_iter().next().unwrap());
    let c = 127. / 255.;
    assert_eq!(color.as_slice(), [c, c, c, 1.0].as_slice());
}

#[test]
fn every_code_change_submits_the_new_color() {
    let mut game_engine = GameEngine::without_editor_ui();
    game_engine.on_code("12");
    assert_eq!(
        game_engine.game_output(),
        vec![
            GameOutput::SubmitColor { color: [1, 1, 1, 255] },
            GameOutput::SubmitColor { color: [12, 12, 12, 255] },
        ]
    );
    assert!(game_engine.game_output().is_empty());
}

#[test]
fn values_outside_a_color_channel_submit_nothing() {
    let mut game_engine = GameEngine::without_editor_ui();
    game_engine.on_code("-1");
    assert!(game_engine.game_output().is_empty());
    game_engine.on_code("000");
    assert!(game_engine.game_output().is_empty());
}

#[test]
fn executed_clear_command_resets_the_code() {
    let mut game_engine = GameEngine::without_editor_ui();
    game_engine.on_code("12");
    game_engine
        .on_editor_input(TerminalInputEvent::Escape)
        .unwrap();
    game_engine.on_input("clear");
    game_engine
        .on_editor_input(TerminalInputEvent::Enter)
        .unwrap();
    let _ = game_engine.game_output();

    game_engine.on_code("7");
    assert_eq!(
        game_engine.game_output(),
        vec![GameOutput::SubmitColor { color: [7, 7, 7, 255] }]
    );
}

#[test]
fn unknown_command_is_an_error_and_returns_to_edit_mode() {
    let mut game_engine = GameEngine::without_editor_ui();
    game_engine
        .on_editor_input(TerminalInputEvent::Escape)
        .unwrap();
    game_engine.on_input("jump");
    let error = game_engine
        .on_editor_input(TerminalInputEvent::Enter)
        .unwrap_err();
    assert_eq!(error.command, "jump");

    game_engine.on_code("3");
    assert_eq!(
        game_engine.game_output(),
        vec![GameOutput::SubmitColor { color: [3, 3, 3, 255] }]
    );
}
