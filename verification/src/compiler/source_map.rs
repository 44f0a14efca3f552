//! The mapping between source code and the instructions compiled from it.

use vstd::prelude::*;

use crate::compiler::location::{compare_functions, function_order, lemma_function_order, FunctionLocation, MemberLocation};
use crate::compiler::table::{Key, Table};
use crate::program::InstructionAddress;

verus! {

impl Key for InstructionAddress {
    fn same_key(&self, other: &Self) -> (result: bool) {
        self.index == other.index
    }

    fn copy_key(&self) -> (result: Self) {
        *self
    }
}

/// Whether an instruction lies within a range of instructions, both ends
/// included
pub open spec fn in_range(instruction: InstructionAddress, range: [InstructionAddress; 2]) -> bool {
    range[0].index <= instruction.index <= range[1].index
}

/// # Maps between source code and the instructions compiled from it
/// The calls that a map records for a function, none where it has no entry
pub open spec fn calls_to(
    calls: Map<crate::compiler::hash::Hash, Seq<InstructionAddress>>,
    function: crate::compiler::hash::Hash,
) -> Seq<InstructionAddress> {
    if calls.contains_key(function) {
        calls[function]
    } else {
        Seq::empty()
    }
}

/// The calls of each function, after a call to one of them is recorded
pub open spec fn calls_after_recording(
    calls: Map<crate::compiler::hash::Hash, Seq<InstructionAddress>>,
    function: crate::compiler::hash::Hash,
    call: InstructionAddress,
) -> Map<crate::compiler::hash::Hash, Seq<InstructionAddress>> {
    calls.insert(function, calls_to(calls, function).push(call))
}

/// The calls of each function, after calls to one of them are recorded in
/// the given order
pub open spec fn calls_after_recording_all(
    calls: Map<crate::compiler::hash::Hash, Seq<InstructionAddress>>,
    function: crate::compiler::hash::Hash,
    recorded: Seq<InstructionAddress>,
) -> Map<crate::compiler::hash::Hash, Seq<InstructionAddress>>
    decreases recorded.len(),
{
    if recorded.len() == 0 {
        calls
    } else {
        calls_after_recording(
            calls_after_recording_all(calls, function, recorded.drop_last()),
            function,
            recorded.last(),
        )
    }
}

/// Consuming the calls to a function gives back exactly the calls recorded
/// for it since it was last consumed, in the order they were recorded, and
/// consuming them once more gives nothing. The calls recorded for other
/// functions stay as they were.
pub proof fn law_consume_gives_the_calls_recorded_since(
    calls: Map<crate::compiler::hash::Hash, Seq<InstructionAddress>>,
    function: crate::compiler::hash::Hash,
    recorded: Seq<InstructionAddress>,
)
    ensures
        calls_to(calls_after_recording_all(calls.remove(function), function, recorded), function)
            == recorded,
        calls_to(
            calls_after_recording_all(calls.remove(function), function, recorded).remove(function),
            function,
        ) == Seq::<InstructionAddress>::empty(),
        forall|other: crate::compiler::hash::Hash|
            other != function ==> calls_to(
                #[trigger] calls_after_recording_all(calls, function, recorded),
                other,
            ) == calls_to(calls, other),
    decreases recorded.len(),
{
    if recorded.len() > 0 {
        law_consume_gives_the_calls_recorded_since(calls, function, recorded.drop_last());
        let before = calls_after_recording_all(calls.remove(function), function, recorded.drop_last());
        assert(calls_to(before, function).push(recorded.last()) =~= recorded);
        assert forall|other: crate::compiler::hash::Hash|
            other != function implies calls_to(
                #[trigger] calls_after_recording_all(calls, function, recorded),
                other,
            ) == calls_to(calls, other) by {
            assert(calls_to(calls_after_recording_all(calls, function, recorded.drop_last()), other)
                == calls_to(calls, other));
        }
    } else {
        assert(calls.remove(function).remove(function) =~= calls.remove(function));
    }
}

#[derive(Debug)]
pub struct SourceMap {
    fragment_to_instructions: Table<MemberLocation, Vec<InstructionAddress>>,
    instruction_to_fragment: Table<InstructionAddress, MemberLocation>,
    function_to_instructions: Table<FunctionLocation, [InstructionAddress; 2]>,
    /// # The instructions that call a function
    ///
    /// The compiler uses this to update calls to functions that changed.
    function_to_calling_instructions: Table<crate::compiler::hash::Hash, Vec<InstructionAddress>>,
}

impl SourceMap {
    /// The instructions that each fragment maps to
    pub closed spec fn fragments(&self) -> Map<MemberLocation, Seq<InstructionAddress>> {
        self.fragment_to_instructions.view().map_values(|v: Vec<InstructionAddress>| v@)
    }

    /// The fragment that each instruction maps to
    pub closed spec fn instructions(&self) -> Map<InstructionAddress, MemberLocation> {
        self.instruction_to_fragment.view()
    }

    /// The range of instructions that each function maps to
    pub closed spec fn functions(&self) -> Map<FunctionLocation, [InstructionAddress; 2]> {
        self.function_to_instructions.view()
    }

    /// The instructions that call each function
    pub closed spec fn calls(&self) -> Map<crate::compiler::hash::Hash, Seq<InstructionAddress>> {
        self.function_to_calling_instructions.view().map_values(|v: Vec<InstructionAddress>| v@)
    }

    /// # An empty source map
    pub fn new() -> (result: Self)
        ensures
            result.fragments() == Map::<MemberLocation, Seq<InstructionAddress>>::empty(),
            result.instructions() == Map::<InstructionAddress, MemberLocation>::empty(),
            result.functions() == Map::<FunctionLocation, [InstructionAddress; 2]>::empty(),
            result.calls() == Map::<crate::compiler::hash::Hash, Seq<InstructionAddress>>::empty(),
    {
        let result = SourceMap {
            fragment_to_instructions: Table::new(),
            instruction_to_fragment: Table::new(),
            function_to_instructions: Table::new(),
            function_to_calling_instructions: Table::new(),
        };
        assert(result.fragments() =~= Map::<MemberLocation, Seq<InstructionAddress>>::empty());
        assert(result.calls() =~= Map::<crate::compiler::hash::Hash, Seq<InstructionAddress>>::empty());
        result
    }

    /// # Define a mapping between a fragment and a number of instructions
    ///
    /// Removes any earlier mapping of the fragment, so its leftovers can't
    /// corrupt the new one. Append the instructions through the returned
    /// [`Mapping`].
    pub fn map_fragment_to_instructions(&mut self, fragment: MemberLocation) -> (result: Mapping)
        ensures
            final(self).fragments() == old(self).fragments().remove(fragment),
            final(self).instructions() == old(self).instructions(),
            final(self).functions() == old(self).functions(),
            final(self).calls() == old(self).calls(),
            result.fragment() == fragment,
    {
        let _ = self.fragment_to_instructions.remove(&fragment);
        assert(self.fragments() =~= old(self).fragments().remove(fragment));
        Mapping { fragment }
    }

    /// # Define which instructions map to the given function
    pub fn map_function_to_instructions(&mut self, function: FunctionLocation, range: [InstructionAddress; 2])
        ensures
            final(self).functions() == old(self).functions().insert(function, range),
            final(self).fragments() == old(self).fragments(),
            final(self).instructions() == old(self).instructions(),
            final(self).calls() == old(self).calls(),
    {
        self.function_to_instructions.insert(function, range);
    }

    /// # Map a function to an instruction that calls it
    pub fn map_function_to_calling_instructions(&mut self, function: crate::compiler::hash::Hash, call: InstructionAddress)
        ensures
            final(self).calls() == calls_after_recording(old(self).calls(), function, call),
            final(self).fragments() == old(self).fragments(),
            final(self).instructions() == old(self).instructions(),
            final(self).functions() == old(self).functions(),
    {
        let mut calls = match self.function_to_calling_instructions.remove(&function) {
            Some(calls) => calls,
            None => Vec::new(),
        };
        calls.push(call);
        let ghost pushed = calls@;
        self.function_to_calling_instructions.insert(function, calls);
        assert(self.calls() =~= old(self).calls().insert(function, pushed));
    }

    /// # The fragment that the given instruction maps to
    ///
    /// Is `None` for the few instructions that the compiler generates to call
    /// the `main` function.
    pub fn instruction_to_fragment(&self, instruction: &InstructionAddress) -> (result: Option<&MemberLocation>)
        ensures
            match result {
                Some(fragment) => self.instructions().contains_key(*instruction) && *fragment
                    == self.instructions()[*instruction],
                None => !self.instructions().contains_key(*instruction),
            },
    {
        self.instruction_to_fragment.get(instruction)
    }

    /// # The instructions that the given fragment maps to
    ///
    /// Is empty for fragments that map to no instructions, like comments.
    pub fn fragment_to_instructions(&self, fragment: &MemberLocation) -> (result: Vec<InstructionAddress>)
        ensures
            result@ == if self.fragments().contains_key(*fragment) {
                self.fragments()[*fragment]
            } else {
                Seq::empty()
            },
    {
        match self.fragment_to_instructions.get(fragment) {
            Some(instructions) => instructions.clone(),
            None => Vec::new(),
        }
    }

    /// # The function from which the given instruction was generated
    ///
    /// Is `None` for the instructions that call the `main` function, which
    /// no function generated. Where the ranges of several functions contain
    /// the instruction, it is the first of them in the order of function
    /// locations.
    pub fn instruction_to_function(&self, instruction: &InstructionAddress) -> (result: Option<&FunctionLocation>)
        ensures
            match result {
                Some(function) => {
                    &&& self.functions().contains_key(*function)
                    &&& in_range(*instruction, self.functions()[*function])
                    &&& forall|other: FunctionLocation|
                        #[trigger] self.functions().contains_key(other) && in_range(
                            *instruction,
                            self.functions()[other],
                        ) ==> function_order(*function, other) <= 0
                },
                None => forall|function: FunctionLocation|
                    #[trigger] self.functions().contains_key(function) ==> !in_range(
                        *instruction,
                        self.functions()[function],
                    ),
            },
    {
        let table = &self.function_to_instructions;
        let _ = table.len();
        let mut best: Option<usize> = None;
        let mut i: usize = 0;
        while i < table.len()
            invariant
                i <= table.entries().len(),
                table == &self.function_to_instructions,
                crate::compiler::table::keys_unique(table.entries()),
                match best {
                    Some(b) => {
                        &&& b < i
                        &&& in_range(*instruction, table.entries()[b as int].1)
                        &&& forall|j: int|
                            0 <= j < i && in_range(*instruction, #[trigger] table.entries()[j].1)
                                ==> function_order(table.entries()[b as int].0, table.entries()[j].0) <= 0
                    },
                    None => forall|j: int|
                        0 <= j < i ==> !in_range(*instruction, #[trigger] table.entries()[j].1),
                },
            decreases table.entries().len() - i,
        {
            let entry = table.entry_at(i);
            let range = entry.1;
            if range[0].index <= instruction.index && instruction.index <= range[1].index {
                match best {
                    None => {
                        proof {
                            lemma_function_order(entry.0, entry.0, entry.0);
                        }
                        best = Some(i);
                    },
                    Some(b) => {
                        let current = table.entry_at(b);
                        let order = compare_functions(&entry.0, &current.0);
                        proof {
                            lemma_function_order(entry.0, current.0, entry.0);
                            assert forall|j: int|
                                0 <= j < i + 1 && in_range(*instruction, #[trigger] table.entries()[j].1) implies (
                                if order < 0 {
                                    function_order(entry.0, table.entries()[j].0)
                                } else {
                                    function_order(current.0, table.entries()[j].0)
                                }) <= 0 by {
                                lemma_function_order(entry.0, current.0, table.entries()[j].0);
                                lemma_function_order(current.0, entry.0, table.entries()[j].0);
                            }
                        }
                        if order < 0 {
                            best = Some(i);
                        }
                    },
                }
            }
            i = i + 1;
        }
        match best {
            Some(b) => {
                let entry = table.entry_at(b);
                proof {
                    crate::compiler::table::lemma_key_index(table.entries(), b as int);
                    assert forall|other: FunctionLocation|
                        #[trigger] self.functions().contains_key(other) && in_range(
                            *instruction,
                            self.functions()[other],
                        ) implies function_order(entry.0, other) <= 0 by {
                        let j = crate::compiler::table::key_index(table.entries(), other);
                        assert(in_range(*instruction, table.entries()[j].1));
                    }
                }
                Some(&entry.0)
            },
            None => {
                proof {
                    assert forall|function: FunctionLocation|
                        #[trigger] self.functions().contains_key(function) implies !in_range(
                            *instruction,
                            self.functions()[function],
                        ) by {
                        let j = crate::compiler::table::key_index(table.entries(), function);
                        assert(!in_range(*instruction, table.entries()[j].1));
                    }
                }
                None
            },
        }
    }

    /// # Take all instructions that call the given function
    ///
    /// Removes the function's entry, so the source map does not accumulate
    /// old calls that are no longer relevant.
    pub fn consume_calls_to_function(&mut self, function: &crate::compiler::hash::Hash) -> (result: Vec<InstructionAddress>)
        ensures
            result@ == calls_to(old(self).calls(), *function),
            final(self).calls() == old(self).calls().remove(*function),
            final(self).fragments() == old(self).fragments(),
            final(self).instructions() == old(self).instructions(),
            final(self).functions() == old(self).functions(),
    {
        let result = match self.function_to_calling_instructions.remove(function) {
            Some(calls) => calls,
            None => Vec::new(),
        };
        assert(self.calls() =~= old(self).calls().remove(*function));
        result
    }
}

/// # A mapping of a fragment to a number of instructions
///
/// Returned by [`SourceMap::map_fragment_to_instructions`].
#[derive(Debug)]
pub struct Mapping {
    fragment: MemberLocation,
}

impl Mapping {
    /// The fragment that is being mapped
    pub closed spec fn fragment(&self) -> MemberLocation {
        self.fragment
    }

    /// # Append an instruction to the mapping
    pub fn append_instruction(&self, source_map: &mut SourceMap, instruction: InstructionAddress)
        ensures
            final(source_map).fragments() == old(source_map).fragments().insert(
                self.fragment(),
                if old(source_map).fragments().contains_key(self.fragment()) {
                    old(source_map).fragments()[self.fragment()].push(instruction)
                } else {
                    seq![instruction]
                },
            ),
            final(source_map).instructions() == old(source_map).instructions().insert(
                instruction,
                self.fragment(),
            ),
            final(source_map).functions() == old(source_map).functions(),
            final(source_map).calls() == old(source_map).calls(),
    {
        let mut instructions = match source_map.fragment_to_instructions.remove(&self.fragment) {
            Some(instructions) => instructions,
            None => Vec::new(),
        };
        instructions.push(instruction);
        let ghost pushed = instructions@;
        source_map.fragment_to_instructions.insert(self.fragment.copy_key(), instructions);
        assert(source_map.fragments() =~= old(source_map).fragments().insert(self.fragment(), pushed));
        source_map.instruction_to_fragment.insert(instruction, self.fragment.copy_key());
    }
}

} // verus!
