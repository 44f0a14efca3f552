//! The data stack that the runtime's builtin functions operate on.

use vstd::prelude::*;

verus! {

/// # A value on the data stack
#[derive(Clone, Copy, Debug, Default, PartialEq, Eq, Structural)]
pub struct Value(pub u8);

impl From<u8> for Value {
    fn from(value: u8) -> (result: Self) {
        Self(value)
    }
}

impl vstd::std_specs::convert::FromSpecImpl<u8> for Value {
    open spec fn obeys_from_spec() -> bool {
        true
    }

    open spec fn from_spec(value: u8) -> Self {
        Value(value)
    }
}

/// # Error: tried to pop a value from an empty stack
#[derive(Clone, Copy, Debug, PartialEq, Eq, Structural)]
pub struct StackUnderflow;

/// The stack after `n` values have been moved from the top of `stack` to the
/// end of `saved`, the topmost value first.
pub open spec fn stack_after_save(stack: Seq<Value>, n: nat) -> Seq<Value> {
    stack.take(stack.len() - n)
}

/// The saved values after `n` values have been moved from the top of `stack`,
/// the topmost value first.
pub open spec fn saved_after_save(
    stack: Seq<Value>,
    saved: Seq<Value>,
    n: nat,
) -> Seq<Value> {
    saved + stack.skip(stack.len() - n).reverse()
}

/// # The data stack
///
/// Holds the stack of values itself, and a second stack that values can be
/// moved to temporarily, to access values further down.
#[derive(Clone, Debug)]
pub struct DataStack {
    values: Vec<Value>,
    saved: Vec<Value>,
}

impl DataStack {
    /// The values on the stack, the topmost value last
    pub closed spec fn stack(&self) -> Seq<Value> {
        self.values@
    }

    /// The values that were moved aside by [`DataStack::save`], the most
    /// recently saved value last
    pub closed spec fn saved_values(&self) -> Seq<Value> {
        self.saved@
    }

    pub fn new() -> (result: Self)
        ensures
            result.stack() == Seq::<Value>::empty(),
            result.saved_values() == Seq::<Value>::empty(),
    {
        DataStack { values: Vec::new(), saved: Vec::new() }
    }

    pub fn clear(&mut self)
        ensures
            final(self).stack() == Seq::<Value>::empty(),
            final(self).saved_values() == Seq::<Value>::empty(),
    {
        self.values.clear();
        self.saved.clear();
    }

    pub fn num_values(&self) -> (result: usize)
        ensures
            result == self.stack().len(),
    {
        self.values.len()
    }

    pub fn is_empty(&self) -> (result: bool)
        ensures
            result == (self.stack().len() == 0),
    {
        self.values.is_empty()
    }

    /// # Copy the topmost value, without removing it
    pub fn clone(&mut self) -> (result: Result<Value, StackUnderflow>)
        ensures
            *final(self) == *old(self),
            old(self).stack().len() == 0 ==> result == Err::<Value, StackUnderflow>(StackUnderflow),
            old(self).stack().len() > 0 ==> result == Ok::<Value, StackUnderflow>(old(self).stack().last()),
    {
        let len = self.values.len();
        if len == 0 {
            Err(StackUnderflow)
        } else {
            Ok(self.values[len - 1])
        }
    }

    pub fn push(&mut self, value: Value)
        ensures
            final(self).stack() == old(self).stack().push(value),
            final(self).saved_values() == old(self).saved_values(),
    {
        self.values.push(value);
    }

    pub fn pop(&mut self) -> (result: Result<Value, StackUnderflow>)
        ensures
            final(self).saved_values() == old(self).saved_values(),
            old(self).stack().len() == 0 ==> {
                &&& result == Err::<Value, StackUnderflow>(StackUnderflow)
                &&& final(self).stack() == old(self).stack()
            },
            old(self).stack().len() > 0 ==> {
                &&& result == Ok::<Value, StackUnderflow>(old(self).stack().last())
                &&& final(self).stack() == old(self).stack().drop_last()
            },
    {
        match self.values.pop() {
            Some(value) => Ok(value),
            None => Err(StackUnderflow),
        }
    }

    /// # Move the topmost `num` values aside
    ///
    /// They can be brought back with [`DataStack::restore`].
    pub fn save(&mut self, num: u8)
        requires
            num <= old(self).stack().len(),
        ensures
            final(self).stack() == stack_after_save(old(self).stack(), num as nat),
            final(self).saved_values() == saved_after_save(
                old(self).stack(),
                old(self).saved_values(),
                num as nat,
            ),
    {
        let ghost stack0 = self.values@;
        let ghost saved0 = self.saved@;
        let mut i: u8 = 0;
        while i < num
            invariant
                i <= num,
                num <= stack0.len(),
                self.values@ == stack0.take(stack0.len() - i),
                self.saved@ == saved0 + stack0.skip(stack0.len() - i).reverse(),
            decreases num - i,
        {
            let value = self.values.pop().unwrap();
            self.saved.push(value);
            proof {
                let k = stack0.len() - i;
                assert(stack0.take(k).drop_last() =~= stack0.take(k - 1));
                assert(stack0.skip(k - 1) =~= seq![stack0[k - 1]] + stack0.skip(k));
                assert(stack0.skip(k - 1).reverse() =~= stack0.skip(k).reverse().push(
                    stack0[k - 1],
                ));
            }
            i = i + 1;
        }
    }

    /// # Move all saved values back onto the stack
    pub fn restore(&mut self)
        ensures
            final(self).stack() == old(self).stack() + old(self).saved_values().reverse(),
            final(self).saved_values() == Seq::<Value>::empty(),
    {
        let ghost stack0 = self.values@;
        let ghost saved0 = self.saved@;
        loop
            invariant
                self.saved@ == saved0.take(self.saved@.len() as int),
                self.saved@.len() <= saved0.len(),
                self.values@ == stack0 + saved0.skip(self.saved@.len() as int).reverse(),
            ensures
                self.saved@.len() == 0,
                self.values@ == stack0 + saved0.reverse(),
            decreases self.saved@.len(),
        {
            let ghost k = self.saved@.len() as int;
            match self.saved.pop() {
                Some(x) => {
                    proof {
                        assert(saved0.take(k).drop_last() =~= saved0.take(k - 1));
                        assert(saved0.skip(k - 1) =~= seq![saved0[k - 1]] + saved0.skip(k));
                        assert(saved0.skip(k - 1).reverse() =~= saved0.skip(k).reverse().push(
                            saved0[k - 1],
                        ));
                    }
                    self.values.push(x);
                },
                None => {
                    assert(saved0.skip(0) =~= saved0);
                    break ;
                },
            }
        }
    }
}

/// Moving values aside and restoring them leaves the stack as it was, if no
/// values were saved before.
pub proof fn lemma_save_restore_roundtrip(stack: Seq<Value>, n: nat)
    requires
        n <= stack.len(),
    ensures
        stack_after_save(stack, n) + saved_after_save(stack, Seq::empty(), n).reverse()
            == stack,
{
    let k = stack.len() - n;
    assert(Seq::<Value>::empty() + stack.skip(k).reverse() =~= stack.skip(k).reverse());
    assert(stack.skip(k).reverse().reverse() =~= stack.skip(k));
    assert(stack.take(k) + stack.skip(k) =~= stack);
}

} // verus!
