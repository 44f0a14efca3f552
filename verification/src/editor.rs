//! Editing code character by character, and the language instance that ties
//! code, editor and interpreter together.

use vstd::prelude::*;

use crate::language::{
    after_code_update, contains_id, index_of, token_kind, Codebase, ExpressionId, Host,
    Interpreter, InterpreterState, StepResult, TokenKind, Value,
};
use crate::text::chars_of;

verus! {

/// # Input that the editor receives
#[derive(Clone, Copy, Debug, PartialEq, Eq, Structural)]
pub enum EditorInputEvent {
    Character { ch: char },
}

/// # A command that the editor executes
#[derive(Clone, Copy, Debug, PartialEq, Eq, Structural)]
pub enum Command {
    /// Replace all code with a single empty expression
    Clear,
    /// Do nothing
    Nop,
}

/// What code, editor and interpreter hold, taken together
pub struct LanguageModel {
    pub ids: Seq<ExpressionId>,
    pub tokens: Seq<Seq<char>>,
    pub kinds: Seq<TokenKind>,
    pub id_counter: u64,
    pub editing: ExpressionId,
    pub next: Option<ExpressionId>,
    pub state: InterpreterState,
}

/// The model of the given code, editor and interpreter
pub open spec fn model_of(code: Codebase, editor: Editor, interpreter: Interpreter) -> LanguageModel {
    LanguageModel {
        ids: code.ids(),
        tokens: code.tokens(),
        kinds: code.kinds(),
        id_counter: code.id_counter(),
        editing: editor.editing(),
        next: interpreter.next_expression(),
        state: interpreter.current_state(),
    }
}

/// What typing a character does
///
/// A space starts a new, empty expression after the one being edited. Any
/// other character is appended to the token being edited. Either way, the
/// edited expression gets a fresh id, and the interpreter follows the update.
/// Nothing changes once ids are used up, or if the edited expression is gone.
pub open spec fn after_char(m: LanguageModel, ch: char, host: Seq<Seq<char>>) -> LanguageModel {
    if !contains_id(m.ids, m.editing) || m.id_counter == u64::MAX {
        m
    } else {
        let i = index_of(m.ids, m.editing);
        let new_id = ExpressionId(m.id_counter);
        if ch == ' ' {
            let ids = m.ids.insert(i + 1, new_id);
            let (next, state) = after_code_update(m.next, m.state, None, ids[0]);
            LanguageModel {
                ids,
                tokens: m.tokens.insert(i + 1, Seq::<char>::empty()),
                kinds: m.kinds.insert(i + 1, TokenKind::Empty),
                id_counter: (m.id_counter + 1) as u64,
                editing: new_id,
                next,
                state,
            }
        } else {
            let ids = m.ids.update(i, new_id);
            let token = m.tokens[i].push(ch);
            let (next, state) = after_code_update(m.next, m.state, Some((m.editing, new_id)), ids[0]);
            LanguageModel {
                ids,
                tokens: m.tokens.update(i, token),
                kinds: m.kinds.update(i, token_kind(token, host)),
                id_counter: (m.id_counter + 1) as u64,
                editing: new_id,
                next,
                state,
            }
        }
    }
}

/// What an input event does
pub open spec fn after_event(m: LanguageModel, event: EditorInputEvent, host: Seq<Seq<char>>) -> LanguageModel {
    match event {
        EditorInputEvent::Character { ch } => after_char(m, ch, host),
    }
}

/// What typing the characters of a text, one after the other, does
pub open spec fn after_chars(m: LanguageModel, text: Seq<char>, host: Seq<Seq<char>>) -> LanguageModel
    decreases text.len(),
{
    if text.len() == 0 {
        m
    } else {
        after_char(after_chars(m, text.drop_last(), host), text.last(), host)
    }
}

/// What a command does
///
/// Clearing the code leaves one empty expression, with a fresh id, which the
/// editor edits and the interpreter starts from. Nothing changes once ids are
/// used up.
pub open spec fn after_command(m: LanguageModel, command: Command) -> LanguageModel {
    match command {
        Command::Clear => if m.id_counter == u64::MAX {
            m
        } else {
            let id = ExpressionId(m.id_counter);
            LanguageModel {
                ids: seq![id],
                tokens: seq![Seq::<char>::empty()],
                kinds: seq![TokenKind::Empty],
                id_counter: (m.id_counter + 1) as u64,
                editing: id,
                next: Some(id),
                state: InterpreterState::Running,
            }
        },
        Command::Nop => m,
    }
}

/// A fresh language instance: a single empty expression, which the editor
/// edits and the interpreter starts from
pub open spec fn initial_model() -> LanguageModel {
    LanguageModel {
        ids: seq![ExpressionId(0)],
        tokens: seq![Seq::<char>::empty()],
        kinds: seq![TokenKind::Empty],
        id_counter: 1,
        editing: ExpressionId(0),
        next: Some(ExpressionId(0)),
        state: InterpreterState::Running,
    }
}

/// # Edits code
#[derive(Debug)]
pub struct Editor {
    editing: ExpressionId,
}

impl Editor {
    /// The expression being edited
    pub closed spec fn editing(&self) -> ExpressionId {
        self.editing
    }

    /// # An editor that edits the last expression of the code
    pub fn new(code: &Codebase) -> (result: Self)
        ensures
            result.editing() == code.ids().last(),
    {
        let len = code.len();
        Editor { editing: code.id_at(len - 1) }
    }

    /// # Process an input event
    pub fn on_input(
        &mut self,
        event: EditorInputEvent,
        code: &mut Codebase,
        interpreter: &mut Interpreter,
        host: &Host,
    )
        ensures
            model_of(*final(code), *final(self), *final(interpreter)) == after_event(
                model_of(*old(code), *old(self), *old(interpreter)),
                event,
                host.names(),
            ),
    {
        match event {
            EditorInputEvent::Character { ch } => {
                let index = match code.find(self.editing) {
                    Some(index) => index,
                    None => return ,
                };
                if ch == ' ' {
                    if let Some(id) = code.insert_after(index) {
                        self.editing = id;
                        interpreter.on_code_update(None, code);
                    }
                } else {
                    if let Some((old_id, new_id)) = code.append_char(index, ch, host) {
                        self.editing = new_id;
                        interpreter.on_code_update(Some((old_id, new_id)), code);
                    }
                }
            },
        }
    }

    /// # Execute a command
    pub fn on_command(&mut self, command: Command, code: &mut Codebase, interpreter: &mut Interpreter)
        ensures
            model_of(*final(code), *final(self), *final(interpreter)) == after_command(
                model_of(*old(code), *old(self), *old(interpreter)),
                command,
            ),
    {
        match command {
            Command::Clear => {
                if let Some(id) = code.clear() {
                    self.editing = id;
                    *interpreter = Interpreter::new(code);
                }
            },
            Command::Nop => {},
        }
    }
}

/// # An instance of the language: code, the editor that edits it, and the
/// interpreter that runs it
#[derive(Debug)]
pub struct Language {
    pub code: Codebase,
    pub editor: Editor,
    pub interpreter: Interpreter,
}

impl Language {
    /// The model of code, editor and interpreter
    pub open spec fn model(&self) -> LanguageModel {
        model_of(self.code, self.editor, self.interpreter)
    }

    /// # A language instance with a single empty expression
    ///
    /// The editor edits that expression, and the interpreter starts from it.
    pub fn new() -> (result: Self)
        ensures
            result.model() == initial_model(),
    {
        let code = Codebase::new();
        let editor = Editor::new(&code);
        let interpreter = Interpreter::new(&code);
        Language { code, editor, interpreter }
    }

    /// # The state of the interpreter
    pub fn state(&self) -> (result: InterpreterState)
        ensures
            result == self.model().state,
    {
        self.interpreter.state(&self.code)
    }

    /// # Type the characters of a text, one after the other
    pub fn on_input(&mut self, input: &str, host: &Host)
        ensures
            final(self).model() == after_chars(old(self).model(), input@, host.names()),
    {
        let chars = chars_of(input);
        let mut i: usize = 0;
        while i < chars.len()
            invariant
                i <= chars@.len(),
                chars@ == input@,
                self.model() == after_chars(old(self).model(), chars@.take(i as int), host.names()),
            decreases chars@.len() - i,
        {
            self.on_char(chars[i], host);
            assert(chars@.take(i + 1).drop_last() =~= chars@.take(i as int));
            i = i + 1;
        }
        assert(chars@.take(i as int) =~= chars@);
    }

    /// # Type a character
    pub fn on_char(&mut self, ch: char, host: &Host)
        ensures
            final(self).model() == after_char(old(self).model(), ch, host.names()),
    {
        self.on_event(EditorInputEvent::Character { ch }, host);
    }

    /// # Process an input event
    pub fn on_event(&mut self, event: EditorInputEvent, host: &Host)
        ensures
            final(self).model() == after_event(old(self).model(), event, host.names()),
    {
        self.editor.on_input(event, &mut self.code, &mut self.interpreter, host);
    }

    /// # Execute a command
    pub fn on_command(&mut self, command: Command)
        ensures
            final(self).model() == after_command(old(self).model(), command),
    {
        self.editor.on_command(command, &mut self.code, &mut self.interpreter);
    }

    /// # Run the code until it has finished, and return its value
    ///
    /// The code must run to a value: it calls no host function and evaluates
    /// to no error.
    pub fn run_until_finished(&mut self) -> (result: Value)
        requires
            old(self).interpreter.run_outcome(&old(self).code).0 is Finished,
        ensures
            result == old(self).interpreter.run_outcome(&old(self).code).0->output,
            final(self).model() == (LanguageModel {
                next: old(self).interpreter.run_outcome(&old(self).code).1,
                state: old(self).interpreter.run_outcome(&old(self).code).2,
                ..old(self).model()
            }),
    {
        match self.interpreter.run(&self.code) {
            StepResult::Finished { output } => output,
            _ => {
                assert(false);
                Value::Nothing
            },
        }
    }
}

} // verus!
