//! The game engine: a language instance that is edited through a terminal,
//! whose code computes the color that the game displays.

use vstd::prelude::*;

use crate::editor::{after_char, after_command, initial_model, Command, Language, LanguageModel};
use crate::language::{chars_equal, run_spec, Host, StepResult, Value};
use crate::text::{chars_of, string_of};

verus! {

/// # Input from the terminal that the editor runs in
#[derive(Clone, Copy, Debug, PartialEq, Eq, Structural)]
pub enum TerminalInputEvent {
    Character { ch: char },
    Enter,
    Escape,
}

/// # Output of the game
#[derive(Clone, Copy, Debug, PartialEq, Eq)]
pub enum GameOutput {
    /// Display the given color: red, green, blue and alpha
    SubmitColor { color: [u8; 4] },
}

/// # A command was entered that the editor does not know
#[derive(Debug)]
pub struct UnknownCommand {
    pub command: String,
}

/// The command that an input names
pub open spec fn command_of(input: Seq<char>) -> Option<Command> {
    if input == seq!['n', 'o', 'p'] {
        Some(Command::Nop)
    } else if input == seq!['c', 'l', 'e', 'a', 'r'] {
        Some(Command::Clear)
    } else {
        None
    }
}

/// The language after its code has run
pub open spec fn settled(m: LanguageModel) -> LanguageModel {
    let (_, next, state) = run_spec(m.next, m.state, m.ids, m.kinds);
    LanguageModel { next, state, ..m }
}

/// The gray of the given brightness
pub open spec fn gray(brightness: u8) -> GameOutput {
    GameOutput::SubmitColor { color: [brightness, brightness, brightness, 255u8] }
}

/// The brightness that running the code submits, if any: the value the code
/// evaluates to, where it fits into a color channel
pub open spec fn brightness_of(m: LanguageModel) -> Option<u8> {
    match run_spec(m.next, m.state, m.ids, m.kinds).0 {
        StepResult::Finished { output: Value::Integer { value } } => if 0 <= value <= 255 {
            Some(value as u8)
        } else {
            None
        },
        _ => None,
    }
}

/// What the game engine holds
pub struct GameModel {
    pub language: LanguageModel,
    /// The command being entered, if the editor is in command mode
    pub command_input: Option<Seq<char>>,
    pub outputs: Seq<GameOutput>,
}

/// The outputs, after the code of the language `m` has run
pub open spec fn outputs_after_run(outputs: Seq<GameOutput>, m: LanguageModel) -> Seq<GameOutput> {
    match brightness_of(m) {
        Some(b) => outputs.push(gray(b)),
        None => outputs,
    }
}

/// The game engine, after a change of the language to `m` and a run of its
/// code, in edit mode
pub open spec fn after_update(g: GameModel, m: LanguageModel) -> GameModel {
    GameModel { language: settled(m), command_input: None, outputs: outputs_after_run(g.outputs, m) }
}

/// What an input event from the terminal does
///
/// In edit mode, a character edits the code, which then runs; escape enters
/// command mode. In command mode, characters are collected; escape aborts the
/// command, and enter executes it, after which the code runs. Either returns
/// to edit mode.
pub open spec fn after_terminal_input(g: GameModel, event: TerminalInputEvent, host: Seq<Seq<char>>) -> GameModel {
    match g.command_input {
        None => match event {
            TerminalInputEvent::Character { ch } => after_update(g, after_char(g.language, ch, host)),
            TerminalInputEvent::Escape => GameModel { command_input: Some(Seq::empty()), ..g },
            TerminalInputEvent::Enter => g,
        },
        Some(input) => match event {
            TerminalInputEvent::Character { ch } => GameModel { command_input: Some(input.push(ch)), ..g },
            TerminalInputEvent::Escape => GameModel { command_input: None, ..g },
            TerminalInputEvent::Enter => match command_of(input) {
                Some(command) => after_update(g, after_command(g.language, command)),
                None => GameModel { command_input: None, ..g },
            },
        },
    }
}

/// What typing the characters of a text, one after the other, does
pub open spec fn after_terminal_inputs(g: GameModel, text: Seq<char>, host: Seq<Seq<char>>) -> GameModel
    decreases text.len(),
{
    if text.len() == 0 {
        g
    } else {
        after_terminal_input(
            after_terminal_inputs(g, text.drop_last(), host),
            TerminalInputEvent::Character { ch: text.last() },
            host,
        )
    }
}

/// # The game engine
pub struct GameEngine {
    language: Language,
    host: Host,
    command_mode: bool,
    command_input: Vec<char>,
    output: Vec<GameOutput>,
}

impl GameEngine {
    /// What the game engine holds
    pub closed spec fn model(&self) -> GameModel {
        GameModel {
            language: self.language.model(),
            command_input: if self.command_mode {
                Some(self.command_input@)
            } else {
                None
            },
            outputs: self.output@,
        }
    }

    /// The names of the functions that the host provides to the code
    pub closed spec fn host_names(&self) -> Seq<Seq<char>> {
        self.host.names()
    }

    /// # A game engine whose editor shows no user interface
    ///
    /// It starts in edit mode, with a fresh language instance, a host that
    /// provides no functions, and no output.
    pub fn without_editor_ui() -> (result: Self)
        ensures
            result.model().language == initial_model(),
            result.model().command_input is None,
            result.model().outputs == Seq::<GameOutput>::empty(),
            result.host_names() == Seq::<Seq<char>>::empty(),
    {
        GameEngine {
            language: Language::new(),
            host: Host::empty(),
            command_mode: false,
            command_input: Vec::new(),
            output: Vec::new(),
        }
    }

    /// Run the code, and submit the color it computes
    fn update(&mut self)
        ensures
            final(self).model().language == settled(old(self).model().language),
            final(self).model().command_input == old(self).model().command_input,
            final(self).model().outputs == outputs_after_run(
                old(self).model().outputs,
                old(self).model().language,
            ),
            final(self).host_names() == old(self).host_names(),
    {
        let result = self.language.interpreter.run(&self.language.code);
        if let StepResult::Finished { output: Value::Integer { value } } = result {
            if 0 <= value && value <= 255 {
                let v = value as u8;
                self.output.push(GameOutput::SubmitColor { color: [v, v, v, 255u8] });
            }
        }
    }

    /// # Process input from the terminal
    ///
    /// Fails, returning to edit mode, where enter is pressed on a command that
    /// the editor does not know.
    pub fn on_editor_input(&mut self, event: TerminalInputEvent) -> (result: Result<(), UnknownCommand>)
        ensures
            final(self).model() == after_terminal_input(old(self).model(), event, old(self).host_names()),
            final(self).host_names() == old(self).host_names(),
            match result {
                Ok(()) => !(old(self).model().command_input matches Some(input) && event
                    == TerminalInputEvent::Enter && command_of(input) is None),
                Err(e) => old(self).model().command_input matches Some(input) && event
                    == TerminalInputEvent::Enter && command_of(input) is None && e.command@
                    == input,
            },
    {
        if !self.command_mode {
            match event {
                TerminalInputEvent::Character { ch } => {
                    self.language.on_char(ch, &self.host);
                    self.update();
                },
                TerminalInputEvent::Escape => {
                    self.command_mode = true;
                    self.command_input = Vec::new();
                    assert(self.command_input@ =~= Seq::<char>::empty());
                },
                TerminalInputEvent::Enter => {},
            }
            return Ok(());
        }
        match event {
            TerminalInputEvent::Character { ch } => {
                self.command_input.push(ch);
                Ok(())
            },
            TerminalInputEvent::Escape => {
                self.command_mode = false;
                Ok(())
            },
            TerminalInputEvent::Enter => {
                self.command_mode = false;
                let nop = vec!['n', 'o', 'p'];
                let clear = vec!['c', 'l', 'e', 'a', 'r'];
                assert(nop@ =~= seq!['n', 'o', 'p']);
                assert(clear@ =~= seq!['c', 'l', 'e', 'a', 'r']);
                let command = if chars_equal(&self.command_input, &nop) {
                    Command::Nop
                } else if chars_equal(&self.command_input, &clear) {
                    Command::Clear
                } else {
                    return Err(UnknownCommand { command: string_of(self.command_input.as_slice()) });
                };
                self.language.on_command(command);
                self.update();
                Ok(())
            },
        }
    }

    /// # Type the characters of a text into the editor, one after the other
    pub fn on_input(&mut self, input: &str)
        ensures
            final(self).model() == after_terminal_inputs(old(self).model(), input@, old(self).host_names()),
            final(self).host_names() == old(self).host_names(),
    {
        let chars = chars_of(input);
        let ghost start = self.model();
        let mut i: usize = 0;
        while i < chars.len()
            invariant
                i <= chars@.len(),
                chars@ == input@,
                self.host_names() == old(self).host_names(),
                start == old(self).model(),
                self.model() == after_terminal_inputs(start, chars@.take(i as int), self.host_names()),
            decreases chars@.len() - i,
        {
            let _ = self.on_editor_input(TerminalInputEvent::Character { ch: chars[i] });
            assert(chars@.take(i + 1).drop_last() =~= chars@.take(i as int));
            i = i + 1;
        }
        assert(chars@.take(i as int) =~= chars@);
    }

    /// # Type code into the editor
    pub fn on_code(&mut self, code: &str)
        ensures
            final(self).model() == after_terminal_inputs(old(self).model(), code@, old(self).host_names()),
            final(self).host_names() == old(self).host_names(),
    {
        self.on_input(code);
    }

    /// # Take the output that the game produced so far
    pub fn game_output(&mut self) -> (result: Vec<GameOutput>)
        ensures
            result@ == old(self).model().outputs,
            final(self).model() == (GameModel { outputs: Seq::empty(), ..old(self).model() }),
            final(self).host_names() == old(self).host_names(),
    {
        let mut output = Vec::new();
        std::mem::swap(&mut output, &mut self.output);
        assert(self.output@ =~= Seq::<GameOutput>::empty());
        output
    }
}

} // verus!
