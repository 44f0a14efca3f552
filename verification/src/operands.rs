//! A stack of operands, as used by the evaluator.

use vstd::prelude::*;

use crate::data_stack::Value;

verus! {

/// # The operands of the evaluator
#[derive(Clone, Debug)]
pub struct Operands {
    values: Vec<Value>,
}

/// # Error: an operand was expected, but there was none
#[derive(Clone, Copy, Debug, PartialEq, Eq, Structural)]
pub enum PopOperandError {
    MissingOperand,
}

impl Operands {
    /// The operands, the most recently pushed one last
    pub closed spec fn operands(&self) -> Seq<Value> {
        self.values@
    }

    pub fn new() -> (result: Self)
        ensures
            result.operands() == Seq::<Value>::empty(),
    {
        Operands { values: Vec::new() }
    }

    pub fn is_empty(&self) -> (result: bool)
        ensures
            result == (self.operands().len() == 0),
    {
        self.values.is_empty()
    }

    pub fn push(&mut self, value: Value)
        ensures
            final(self).operands() == old(self).operands().push(value),
    {
        self.values.push(value);
    }

    pub fn pop_any(&mut self) -> (result: Result<Value, PopOperandError>)
        ensures
            old(self).operands().len() == 0 ==> {
                &&& result == Err::<Value, PopOperandError>(PopOperandError::MissingOperand)
                &&& final(self).operands() == old(self).operands()
            },
            old(self).operands().len() > 0 ==> {
                &&& result == Ok::<Value, PopOperandError>(old(self).operands().last())
                &&& final(self).operands() == old(self).operands().drop_last()
            },
    {
        match self.values.pop() {
            Some(value) => Ok(value),
            None => Err(PopOperandError::MissingOperand),
        }
    }

    /// # The operands, the most recently pushed one last
    pub fn values(&self) -> (result: Vec<Value>)
        ensures
            result@ == self.operands(),
    {
        let mut result = Vec::new();
        let mut i: usize = 0;
        while i < self.values.len()
            invariant
                i <= self.values@.len(),
                result@ == self.values@.take(i as int),
            decreases self.values@.len() - i,
        {
            result.push(self.values[i]);
            i = i + 1;
            assert(result@ =~= self.values@.take(i as int));
        }
        assert(self.values@.take(i as int) =~= self.values@);
        result
    }
}

} // verus!
