//! The functions that the game engine provides to the code that runs in it.

use vstd::prelude::*;

use crate::compiler::host::{Host, HostFunction};

verus! {

/// # A function that the game engine provides
#[derive(Clone, Copy, Debug, PartialEq, Eq, Structural)]
pub enum GameEngineFunction {
    /// # Halt the game, like a breakpoint
    Halt,
    /// # Load a value from a memory address
    Load,
    /// # Store a value at a memory address
    Store,
    /// # Read the next input event from the buffer
    ReadInput,
    /// # Read a random value from the buffer
    ReadRandom,
    /// # Set a pixel in the frame buffer
    SetPixel,
    /// # Submit the current frame, which the game engine then displays
    SubmitFrame,
}

/// All functions that the game engine provides, in order
pub open spec fn all_functions() -> Seq<GameEngineFunction> {
    seq![
        GameEngineFunction::Halt,
        GameEngineFunction::Load,
        GameEngineFunction::Store,
        GameEngineFunction::ReadInput,
        GameEngineFunction::ReadRandom,
        GameEngineFunction::SetPixel,
        GameEngineFunction::SubmitFrame,
    ]
}

/// The number that identifies a function at runtime: its position among all
/// functions
pub open spec fn number_of(function: GameEngineFunction) -> u8 {
    match function {
        GameEngineFunction::Halt => 0,
        GameEngineFunction::Load => 1,
        GameEngineFunction::Store => 2,
        GameEngineFunction::ReadInput => 3,
        GameEngineFunction::ReadRandom => 4,
        GameEngineFunction::SetPixel => 5,
        GameEngineFunction::SubmitFrame => 6,
    }
}

/// The name that code calls a function by
pub open spec fn name_of(function: GameEngineFunction) -> Seq<char> {
    match function {
        GameEngineFunction::Halt => "halt"@,
        GameEngineFunction::Load => "load"@,
        GameEngineFunction::Store => "store"@,
        GameEngineFunction::ReadInput => "read_input"@,
        GameEngineFunction::ReadRandom => "read_random"@,
        GameEngineFunction::SetPixel => "set_pixel"@,
        GameEngineFunction::SubmitFrame => "submit_frame"@,
    }
}

impl GameEngineFunction {
    /// # All functions that the game engine provides, in order
    pub fn all() -> (result: Vec<GameEngineFunction>)
        ensures
            result@ == all_functions(),
    {
        let result = vec![
            GameEngineFunction::Halt,
            GameEngineFunction::Load,
            GameEngineFunction::Store,
            GameEngineFunction::ReadInput,
            GameEngineFunction::ReadRandom,
            GameEngineFunction::SetPixel,
            GameEngineFunction::SubmitFrame,
        ];
        assert(result@ =~= all_functions());
        result
    }

    /// # The number that identifies the function at runtime
    pub fn number(&self) -> (result: u8)
        ensures
            result == number_of(*self),
    {
        match self {
            GameEngineFunction::Halt => 0,
            GameEngineFunction::Load => 1,
            GameEngineFunction::Store => 2,
            GameEngineFunction::ReadInput => 3,
            GameEngineFunction::ReadRandom => 4,
            GameEngineFunction::SetPixel => 5,
            GameEngineFunction::SubmitFrame => 6,
        }
    }

    /// # The name that code calls the function by
    pub fn name(&self) -> (result: &'static str)
        ensures
            result@ == name_of(*self),
    {
        match self {
            GameEngineFunction::Halt => "halt",
            GameEngineFunction::Load => "load",
            GameEngineFunction::Store => "store",
            GameEngineFunction::ReadInput => "read_input",
            GameEngineFunction::ReadRandom => "read_random",
            GameEngineFunction::SetPixel => "set_pixel",
            GameEngineFunction::SubmitFrame => "submit_frame",
        }
    }
}

/// # The host that the game engine provides to code
#[derive(Debug)]
pub struct GameEngineHost {
    functions_by_name: Vec<(String, GameEngineFunction)>,
    functions_by_number: Vec<(u8, GameEngineFunction)>,
}

impl GameEngineHost {
    /// Each function, by its name and by its number, in the order of all
    /// functions
    #[verifier::type_invariant]
    closed spec fn wf(&self) -> bool {
        &&& self.functions_by_name@.len() == all_functions().len()
        &&& self.functions_by_number@.len() == all_functions().len()
        &&& forall|i: int|
            0 <= i < all_functions().len() ==> {
                &&& (#[trigger] self.functions_by_name@[i]).0@ == name_of(all_functions()[i])
                &&& self.functions_by_name@[i].1 == all_functions()[i]
            }
        &&& forall|i: int|
            0 <= i < all_functions().len() ==> {
                &&& (#[trigger] self.functions_by_number@[i]).0 == number_of(all_functions()[i])
                &&& self.functions_by_number@[i].1 == all_functions()[i]
            }
    }

    /// # The function with the given number, if there is one
    pub fn function_by_number(&self, effect: u8) -> (result: Option<GameEngineFunction>)
        ensures
            match result {
                Some(function) => number_of(function) == effect,
                None => forall|i: int|
                    0 <= i < all_functions().len() ==> number_of(#[trigger] all_functions()[i])
                        != effect,
            },
    {
        proof {
            use_type_invariant(self);
        }
        let mut i: usize = 0;
        while i < self.functions_by_number.len()
            invariant
                i <= self.functions_by_number@.len(),
                self.wf(),
                forall|j: int| 0 <= j < i ==> number_of(#[trigger] all_functions()[j]) != effect,
            decreases self.functions_by_number@.len() - i,
        {
            if self.functions_by_number[i].0 == effect {
                assert(self.functions_by_number@[i as int].1 == all_functions()[i as int]);
                return Some(self.functions_by_number[i].1);
            }
            assert(self.functions_by_number@[i as int].0 == number_of(all_functions()[i as int]));
            i = i + 1;
        }
        None
    }

    /// # The function with the given name, if there is one
    pub fn function_by_name(&self, name: &str) -> (result: Option<GameEngineFunction>)
        ensures
            match result {
                Some(function) => name_of(function) == name@,
                None => forall|i: int|
                    0 <= i < all_functions().len() ==> name_of(#[trigger] all_functions()[i])
                        != name@,
            },
    {
        proof {
            use_type_invariant(self);
        }
        let owned = name.to_owned();
        let mut i: usize = 0;
        while i < self.functions_by_name.len()
            invariant
                i <= self.functions_by_name@.len(),
                self.wf(),
                owned@ == name@,
                forall|j: int| 0 <= j < i ==> name_of(#[trigger] all_functions()[j]) != name@,
            decreases self.functions_by_name@.len() - i,
        {
            if self.functions_by_name[i].0 == owned {
                assert(self.functions_by_name@[i as int].1 == all_functions()[i as int]);
                return Some(self.functions_by_name[i].1);
            }
            assert(self.functions_by_name@[i as int].0@ == name_of(all_functions()[i as int]));
            i = i + 1;
        }
        None
    }
}

impl Default for GameEngineHost {
    /// # The host, with all functions of the game engine
    fn default() -> (result: Self)
        ensures
            result.function_list().len() == all_functions().len(),
            forall|i: int|
                0 <= i < all_functions().len() ==> {
                    &&& (#[trigger] result.function_list()[i]).name@ == name_of(all_functions()[i])
                    &&& result.function_list()[i].number == number_of(all_functions()[i])
                },
    {
        let functions = GameEngineFunction::all();
        let mut functions_by_name: Vec<(String, GameEngineFunction)> = Vec::new();
        let mut functions_by_number: Vec<(u8, GameEngineFunction)> = Vec::new();
        let mut i: usize = 0;
        while i < functions.len()
            invariant
                i <= functions@.len(),
                functions@ == all_functions(),
                functions_by_name@.len() == i,
                functions_by_number@.len() == i,
                forall|j: int|
                    0 <= j < i ==> {
                        &&& (#[trigger] functions_by_name@[j]).0@ == name_of(all_functions()[j])
                        &&& functions_by_name@[j].1 == all_functions()[j]
                    },
                forall|j: int|
                    0 <= j < i ==> {
                        &&& (#[trigger] functions_by_number@[j]).0 == number_of(all_functions()[j])
                        &&& functions_by_number@[j].1 == all_functions()[j]
                    },
            decreases functions@.len() - i,
        {
            let function = functions[i];
            let name = function.name().to_owned();
            functions_by_name.push((name, function));
            functions_by_number.push((function.number(), function));
            i = i + 1;
        }
        GameEngineHost { functions_by_name, functions_by_number }
    }
}

impl Host for GameEngineHost {
    closed spec fn function_list(&self) -> Seq<HostFunction> {
        self.functions_by_name@.map_values(
            |entry: (String, GameEngineFunction)| HostFunction { name: entry.0, number: number_of(entry.1) },
        )
    }

    fn functions(&self) -> (result: Vec<HostFunction>) {
        let mut result: Vec<HostFunction> = Vec::new();
        let mut i: usize = 0;
        while i < self.functions_by_name.len()
            invariant
                i <= self.functions_by_name@.len(),
                result@ == self.function_list().take(i as int),
            decreases self.functions_by_name@.len() - i,
        {
            let entry = &self.functions_by_name[i];
            result.push(HostFunction { name: entry.0.clone(), number: entry.1.number() });
            i = i + 1;
            assert(result@ =~= self.function_list().take(i as int));
        }
        assert(self.function_list().take(i as int) =~= self.function_list());
        result
    }
}

} // verus!
