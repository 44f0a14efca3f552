//! The builtin functions of the runtime, operating on the data stack.

use vstd::prelude::*;

use crate::data_stack::{DataStack, StackUnderflow, Value};

verus! {

pub type Result = core::result::Result<(), Error>;

/// # An error that a builtin function can return
#[derive(Clone, Copy, Debug, PartialEq, Eq, Structural)]
pub enum Error {
    IntegerOverflow,
    PopFromEmptyStack(StackUnderflow),
}

/// The error that every builtin returns, if the stack holds too few values
pub open spec fn underflow() -> Result {
    Err(Error::PopFromEmptyStack(StackUnderflow))
}

/// The value `depth` positions below the top of the stack
pub open spec fn at_depth(s: Seq<Value>, depth: int) -> Value {
    s[s.len() - 1 - depth]
}

/// The stack with `value` inserted, so that `depth` values are above it
pub open spec fn insert_at_depth(s: Seq<Value>, depth: int, value: Value) -> Seq<Value> {
    s.take(s.len() - depth) + seq![value] + s.skip(s.len() - depth)
}

/// The stack with the value `depth` positions below the top removed
pub open spec fn remove_at_depth(s: Seq<Value>, depth: int) -> Seq<Value> {
    s.take(s.len() - depth - 1) + s.skip(s.len() - depth)
}

/// The stack with its two topmost values popped
pub open spec fn pop_two(s: Seq<Value>) -> Seq<Value> {
    s.take(s.len() - 2)
}

/// What a builtin that pops two operands leaves behind, if it fails to pop
/// them
pub open spec fn fails_to_pop_two(s: Seq<Value>, after: Seq<Value>, r: Result) -> bool {
    &&& r == underflow()
    &&& s.len() == 0 ==> after == s
    &&& s.len() == 1 ==> after == Seq::<Value>::empty()
}

/// The stack after two values have been swapped
pub open spec fn swapped(s: Seq<Value>) -> Seq<Value> {
    pop_two(s).push(s[s.len() - 1]).push(s[s.len() - 2])
}

/// What `add` does to the data stack, and what it returns
pub open spec fn add_outcome(s: Seq<Value>, saved: Seq<Value>, after: Seq<Value>, after_saved: Seq<Value>, result: Result) -> bool {
    &&& after_saved == saved
    &&& ({
                if s.len() < 2 {
                    fails_to_pop_two(s, after, result)
                } else if at_depth(s, 1).0 + at_depth(s, 0).0 > u8::MAX {
                    result == Err::<(), Error>(Error::IntegerOverflow) && after == pop_two(s)
                } else {
                    &&& result == Ok::<(), Error>(())
                    &&& after == pop_two(s).push(Value((at_depth(s, 1).0 + at_depth(s, 0).0) as u8))
                }
            })
}

/// What `mul` does to the data stack, and what it returns
pub open spec fn mul_outcome(s: Seq<Value>, saved: Seq<Value>, after: Seq<Value>, after_saved: Seq<Value>, result: Result) -> bool {
    &&& after_saved == saved
    &&& ({
                if s.len() < 2 {
                    fails_to_pop_two(s, after, result)
                } else {
                    &&& result == Ok::<(), Error>(())
                    &&& after == pop_two(s).push(Value((at_depth(s, 1).0 * at_depth(s, 0).0) as u8))
                }
            })
}

/// What `sub` does to the data stack, and what it returns
pub open spec fn sub_outcome(s: Seq<Value>, saved: Seq<Value>, after: Seq<Value>, after_saved: Seq<Value>, result: Result) -> bool {
    &&& after_saved == saved
    &&& ({
                if s.len() < 2 {
                    fails_to_pop_two(s, after, result)
                } else {
                    &&& result == Ok::<(), Error>(())
                    &&& after == pop_two(s).push(
                        Value(((at_depth(s, 1).0 - at_depth(s, 0).0 + 256) % 256) as u8),
                    )
                }
            })
}

/// What `swap` does to the data stack, and what it returns
pub open spec fn swap_outcome(s: Seq<Value>, saved: Seq<Value>, after: Seq<Value>, after_saved: Seq<Value>, result: Result) -> bool {
    &&& after_saved == saved
    &&& ({
                if s.len() < 2 {
                    fails_to_pop_two(s, after, result)
                } else {
                    result == Ok::<(), Error>(()) && after == swapped(s)
                }
            })
}

/// What `copy` does to the data stack, and what it returns
pub open spec fn copy_outcome(s: Seq<Value>, saved: Seq<Value>, after: Seq<Value>, after_saved: Seq<Value>, result: Result) -> bool {
    &&& ({
                let rest = s.drop_last();
                let i = s.last().0 as int;
                if s.len() == 0 {
                    &&& result == underflow()
                    &&& after == s
                    &&& after_saved == saved
                } else if i == rest.len() {
                    &&& result == underflow()
                    &&& after == Seq::<Value>::empty()
                    &&& after_saved == saved + rest.reverse()
                } else {
                    &&& result == Ok::<(), Error>(())
                    &&& after == rest + saved.reverse() + seq![at_depth(rest, i)]
                    &&& after_saved == Seq::<Value>::empty()
                }
            })
}

/// What `drop` does to the data stack, and what it returns
pub open spec fn drop_outcome(s: Seq<Value>, saved: Seq<Value>, after: Seq<Value>, after_saved: Seq<Value>, result: Result) -> bool {
    &&& ({
                let rest = s.drop_last();
                let i = s.last().0 as int;
                if s.len() == 0 {
                    &&& result == underflow()
                    &&& after == s
                    &&& after_saved == saved
                } else {
                    &&& result == Ok::<(), Error>(())
                    &&& after_saved == Seq::<Value>::empty()
                    &&& i < rest.len() ==> after == remove_at_depth(rest, i)
                        + saved.reverse()
                    &&& i == rest.len() ==> after == rest + saved.reverse()
                }
            })
}

/// What `place` does to the data stack, and what it returns
pub open spec fn place_outcome(s: Seq<Value>, saved: Seq<Value>, after: Seq<Value>, after_saved: Seq<Value>, result: Result) -> bool {
    &&& ({
                let i = s.last().0 as int;
                let a = at_depth(s, 1);
                if s.len() < 2 {
                    &&& fails_to_pop_two(s, after, result)
                    &&& after_saved == saved
                } else {
                    &&& result == Ok::<(), Error>(())
                    &&& after == insert_at_depth(pop_two(s), i, a) + saved.reverse()
                    &&& after_saved == Seq::<Value>::empty()
                }
            })
}

/// What `take` does to the data stack, and what it returns
pub open spec fn take_outcome(s: Seq<Value>, saved: Seq<Value>, after: Seq<Value>, after_saved: Seq<Value>, result: Result) -> bool {
    &&& ({
                let rest = s.drop_last();
                let i = s.last().0 as int;
                if s.len() == 0 {
                    &&& result == underflow()
                    &&& after == s
                    &&& after_saved == saved
                } else if i == rest.len() {
                    &&& result == underflow()
                    &&& after == Seq::<Value>::empty()
                    &&& after_saved == saved + rest.reverse()
                } else {
                    &&& result == Ok::<(), Error>(())
                    &&& after == remove_at_depth(rest, i) + saved.reverse()
                        + seq![at_depth(rest, i)]
                    &&& after_saved == Seq::<Value>::empty()
                }
            })
}

/// What `store` does to the data stack and memory, and what it returns
pub open spec fn store_outcome(s: Seq<Value>, saved: Seq<Value>, after: Seq<Value>, after_saved: Seq<Value>, mem: Seq<u8>, mem_after: Seq<u8>, result: Result) -> bool {
    &&& after_saved == saved
    &&& ({
                let addr = at_depth(s, 1);
                let value = at_depth(s, 0);
                if s.len() < 2 {
                    &&& fails_to_pop_two(s, after, result)
                    &&& mem_after == mem
                } else {
                    &&& result == Ok::<(), Error>(())
                    &&& after == pop_two(s).push(addr)
                    &&& mem_after == mem.update(addr.0 as int, value.0)
                }
            })
}

/// Pop two values and check that the stack held them
fn pop_two_values(data_stack: &mut DataStack) -> (result: core::result::Result<(Value, Value), Error>)
    ensures
        final(data_stack).saved_values() == old(data_stack).saved_values(),
        old(data_stack).stack().len() < 2 ==> {
            &&& result == Err::<(Value, Value), Error>(Error::PopFromEmptyStack(StackUnderflow))
            &&& fails_to_pop_two(old(data_stack).stack(), final(data_stack).stack(), underflow())
        },
        old(data_stack).stack().len() >= 2 ==> {
            &&& result == Ok::<(Value, Value), Error>(
                (at_depth(old(data_stack).stack(), 1), at_depth(old(data_stack).stack(), 0)),
            )
            &&& final(data_stack).stack() == pop_two(old(data_stack).stack())
        },
{
    let ghost s = data_stack.stack();
    let b = match data_stack.pop() {
        Ok(b) => b,
        Err(err) => return Err(Error::PopFromEmptyStack(err)),
    };
    let a = match data_stack.pop() {
        Ok(a) => a,
        Err(err) => {
            assert(data_stack.stack() =~= Seq::<Value>::empty());
            return Err(Error::PopFromEmptyStack(err));
        },
    };
    assert(s.drop_last().drop_last() =~= pop_two(s));
    Ok((a, b))
}

/// # Add the two topmost values
pub fn add(data_stack: &mut DataStack) -> (result: Result)
    ensures
        add_outcome(old(data_stack).stack(), old(data_stack).saved_values(), final(data_stack).stack(), final(data_stack).saved_values(), result),
{
    let (a, b) = pop_two_values(data_stack)?;

    let Some(c) = a.0.checked_add(b.0) else {
        return Err(Error::IntegerOverflow);
    };

    data_stack.push(Value(c));

    Ok(())
}

/// # Multiply the two topmost values
pub fn mul(data_stack: &mut DataStack) -> (result: Result)
    requires
        old(data_stack).stack().len() >= 2 ==> at_depth(old(data_stack).stack(), 1).0
            * at_depth(old(data_stack).stack(), 0).0 <= u8::MAX,
    ensures
        mul_outcome(old(data_stack).stack(), old(data_stack).saved_values(), final(data_stack).stack(), final(data_stack).saved_values(), result),
{
    let (a, b) = pop_two_values(data_stack)?;

    let c = a.0 * b.0;

    data_stack.push(Value(c));

    Ok(())
}

/// # Subtract the topmost value from the one below it, wrapping on underflow
pub fn sub(data_stack: &mut DataStack) -> (result: Result)
    ensures
        sub_outcome(old(data_stack).stack(), old(data_stack).saved_values(), final(data_stack).stack(), final(data_stack).saved_values(), result),
{
    let (a, b) = pop_two_values(data_stack)?;

    let c = a.0.wrapping_sub(b.0);

    data_stack.push(Value(c));

    Ok(())
}

/// # Swap the two topmost values
pub fn swap(data_stack: &mut DataStack) -> (result: Result)
    ensures
        swap_outcome(old(data_stack).stack(), old(data_stack).saved_values(), final(data_stack).stack(), final(data_stack).saved_values(), result),
{
    let (a, b) = pop_two_values(data_stack)?;

    data_stack.push(b);
    data_stack.push(a);

    Ok(())
}


/// Pop the index operand that `copy`, `drop`, `place` and `take` start with
fn pop_index(data_stack: &mut DataStack) -> (result: core::result::Result<u8, Error>)
    ensures
        final(data_stack).saved_values() == old(data_stack).saved_values(),
        old(data_stack).stack().len() == 0 ==> {
            &&& result == Err::<u8, Error>(Error::PopFromEmptyStack(StackUnderflow))
            &&& final(data_stack).stack() == old(data_stack).stack()
        },
        old(data_stack).stack().len() > 0 ==> {
            &&& result == Ok::<u8, Error>(old(data_stack).stack().last().0)
            &&& final(data_stack).stack() == old(data_stack).stack().drop_last()
        },
{
    match data_stack.pop() {
        Ok(i) => Ok(i.0),
        Err(err) => Err(Error::PopFromEmptyStack(err)),
    }
}

/// # Copy a value from further down the stack to the top
///
/// Pops an index `i`, then pushes a copy of the value that is `i` positions
/// below the new top.
pub fn copy(data_stack: &mut DataStack) -> (result: Result)
    requires
        old(data_stack).stack().len() > 0 ==> old(data_stack).stack().last().0
            < old(data_stack).stack().len(),
    ensures
        copy_outcome(old(data_stack).stack(), old(data_stack).saved_values(), final(data_stack).stack(), final(data_stack).saved_values(), result),
{
    let ghost s = data_stack.stack();
    let ghost saved = data_stack.saved_values();
    let i = pop_index(data_stack)?;

    let ghost rest = data_stack.stack();
    let ghost k = rest.len() - i;
    data_stack.save(i);
    let a = match data_stack.clone() {
        Ok(a) => a,
        Err(err) => {
            assert(data_stack.stack() =~= Seq::<Value>::empty());
            assert(rest.skip(0) =~= rest);
            return Err(Error::PopFromEmptyStack(err));
        },
    };
    data_stack.restore();
    proof {
        assert(rest.skip(k).reverse().reverse() =~= rest.skip(k));
        assert((saved + rest.skip(k).reverse()).reverse() =~= rest.skip(k) + saved.reverse());
        assert(rest.take(k) + (rest.skip(k) + saved.reverse()) =~= rest + saved.reverse());
    }

    data_stack.push(a);
    assert(data_stack.stack() =~= rest + saved.reverse() + seq![at_depth(rest, i as int)]);

    Ok(())
}

/// # Drop a value from further down the stack
///
/// Pops an index `i`, then removes the value that is `i` positions below the
/// new top. Does nothing more, if no such value exists.
pub fn drop(data_stack: &mut DataStack) -> (result: Result)
    requires
        old(data_stack).stack().len() > 0 ==> old(data_stack).stack().last().0
            <= old(data_stack).stack().len() - 1,
    ensures
        drop_outcome(old(data_stack).stack(), old(data_stack).saved_values(), final(data_stack).stack(), final(data_stack).saved_values(), result),
{
    let ghost saved = data_stack.saved_values();
    let i = pop_index(data_stack)?;

    let ghost rest = data_stack.stack();
    let ghost k = rest.len() - i;
    data_stack.save(i);
    let _ = data_stack.pop();
    data_stack.restore();
    proof {
        assert(rest.skip(k).reverse().reverse() =~= rest.skip(k));
        assert((saved + rest.skip(k).reverse()).reverse() =~= rest.skip(k) + saved.reverse());
        if k > 0 {
            assert(rest.take(k).drop_last() =~= rest.take(k - 1));
            assert(data_stack.stack() =~= remove_at_depth(rest, i as int) + saved.reverse());
        } else {
            assert(rest.take(k) + (rest.skip(k) + saved.reverse()) =~= rest + saved.reverse());
            assert(data_stack.stack() =~= rest + saved.reverse());
        }
    }

    Ok(())
}

/// # Place the topmost value further down the stack
///
/// Pops an index `i` and a value, then inserts the value so that `i` values
/// are above it.
pub fn place(data_stack: &mut DataStack) -> (result: Result)
    requires
        old(data_stack).stack().len() >= 2 ==> old(data_stack).stack().last().0
            <= old(data_stack).stack().len() - 2,
    ensures
        place_outcome(old(data_stack).stack(), old(data_stack).saved_values(), final(data_stack).stack(), final(data_stack).saved_values(), result),
{
    let ghost s = data_stack.stack();
    let ghost saved = data_stack.saved_values();
    let (a, i) = pop_two_values(data_stack)?;
    let i = i.0;

    let ghost rest = data_stack.stack();
    let ghost k = rest.len() - i;
    data_stack.save(i);
    data_stack.push(a);
    data_stack.restore();
    proof {
        assert(rest.skip(k).reverse().reverse() =~= rest.skip(k));
        assert((saved + rest.skip(k).reverse()).reverse() =~= rest.skip(k) + saved.reverse());
        assert(rest.take(k).push(a) + (rest.skip(k) + saved.reverse()) =~= insert_at_depth(
            rest,
            i as int,
            a,
        ) + saved.reverse());
        assert(data_stack.stack() =~= insert_at_depth(rest, i as int, a) + saved.reverse());
    }

    Ok(())
}

/// # Take a value from further down the stack and put it on top
///
/// Pops an index `i`, then moves the value that is `i` positions below the
/// new top to the top.
pub fn take(data_stack: &mut DataStack) -> (result: Result)
    requires
        old(data_stack).stack().len() > 0 ==> old(data_stack).stack().last().0
            < old(data_stack).stack().len(),
    ensures
        take_outcome(old(data_stack).stack(), old(data_stack).saved_values(), final(data_stack).stack(), final(data_stack).saved_values(), result),
{
    let ghost saved = data_stack.saved_values();
    let i = pop_index(data_stack)?;

    let ghost rest = data_stack.stack();
    let ghost k = rest.len() - i;
    data_stack.save(i);
    let a = match data_stack.pop() {
        Ok(a) => a,
        Err(err) => {
            assert(data_stack.stack() =~= Seq::<Value>::empty());
            assert(rest.skip(0) =~= rest);
            return Err(Error::PopFromEmptyStack(err));
        },
    };
    data_stack.restore();
    proof {
        assert(rest.skip(k).reverse().reverse() =~= rest.skip(k));
        assert((saved + rest.skip(k).reverse()).reverse() =~= rest.skip(k) + saved.reverse());
        assert(rest.take(k).drop_last() =~= rest.take(k - 1));
    }

    data_stack.push(a);
    assert(data_stack.stack() =~= remove_at_depth(rest, i as int) + saved.reverse() + seq![
        at_depth(rest, i as int),
    ]);

    Ok(())
}

/// # Store a value in memory
///
/// Pops a value and an address, writes the value to memory at that address,
/// then pushes the address back.
pub fn store(data_stack: &mut DataStack, mem: &mut [u8]) -> (result: Result)
    requires
        old(data_stack).stack().len() >= 2 ==> (at_depth(old(data_stack).stack(), 1).0 as int)
            < old(mem)@.len(),
    ensures
        store_outcome(old(data_stack).stack(), old(data_stack).saved_values(), final(data_stack).stack(), final(data_stack).saved_values(), old(mem)@, final(mem)@, result),
{
    let (addr, value) = pop_two_values(data_stack)?;

    mem[addr.0 as usize] = value.0;

    data_stack.push(addr);

    Ok(())
}

/// # A builtin function
#[derive(Clone, Copy, Debug, PartialEq, Eq, Structural)]
pub enum Builtin {
    Add,
    Copy,
    Drop,
    Mul,
    Place,
    Store,
    Sub,
    Swap,
    Take,
}

/// What a builtin requires of the data stack and memory, to not panic
pub open spec fn precondition(builtin: Builtin, s: Seq<Value>, mem_len: int) -> bool {
    match builtin {
        Builtin::Copy | Builtin::Take => s.len() > 0 ==> s.last().0 < s.len(),
        Builtin::Drop => s.len() > 0 ==> s.last().0 <= s.len() - 1,
        Builtin::Mul => s.len() >= 2 ==> at_depth(s, 1).0 * at_depth(s, 0).0 <= u8::MAX,
        Builtin::Place => s.len() >= 2 ==> s.last().0 <= s.len() - 2,
        Builtin::Store => s.len() >= 2 ==> (at_depth(s, 1).0 as int) < mem_len,
        _ => true,
    }
}

/// What a builtin does to the data stack and memory, and what it returns
pub open spec fn outcome(
    builtin: Builtin,
    s: Seq<Value>,
    saved: Seq<Value>,
    after: Seq<Value>,
    after_saved: Seq<Value>,
    mem: Seq<u8>,
    mem_after: Seq<u8>,
    result: Result,
) -> bool {
    match builtin {
        Builtin::Store => store_outcome(s, saved, after, after_saved, mem, mem_after, result),
        _ => mem_after == mem && match builtin {
            Builtin::Add => add_outcome(s, saved, after, after_saved, result),
            Builtin::Copy => copy_outcome(s, saved, after, after_saved, result),
            Builtin::Drop => drop_outcome(s, saved, after, after_saved, result),
            Builtin::Mul => mul_outcome(s, saved, after, after_saved, result),
            Builtin::Place => place_outcome(s, saved, after, after_saved, result),
            Builtin::Sub => sub_outcome(s, saved, after, after_saved, result),
            Builtin::Swap => swap_outcome(s, saved, after, after_saved, result),
            _ => take_outcome(s, saved, after, after_saved, result),
        },
    }
}

/// # Run a builtin function
pub fn run(builtin: Builtin, data_stack: &mut DataStack, mem: &mut [u8]) -> (result: Result)
    requires
        precondition(builtin, old(data_stack).stack(), old(mem)@.len() as int),
    ensures
        outcome(
            builtin,
            old(data_stack).stack(),
            old(data_stack).saved_values(),
            final(data_stack).stack(),
            final(data_stack).saved_values(),
            old(mem)@,
            final(mem)@,
            result,
        ),
{
    match builtin {
        Builtin::Add => self::add(data_stack),
        Builtin::Copy => copy(data_stack),
        Builtin::Drop => drop(data_stack),
        Builtin::Mul => self::mul(data_stack),
        Builtin::Place => place(data_stack),
        Builtin::Store => store(data_stack, mem),
        Builtin::Sub => self::sub(data_stack),
        Builtin::Swap => swap(data_stack),
        Builtin::Take => take(data_stack),
    }
}

/// Swapping the two topmost values twice leaves the stack unchanged.
pub proof fn lemma_swap_twice(s: Seq<Value>)
    requires
        s.len() >= 2,
    ensures
        swapped(swapped(s)) == s,
{
    let t = swapped(s);
    assert(pop_two(t) =~= pop_two(s));
    assert(swapped(t) =~= s);
}

/// Taking a value from the depth that it was placed at gives back the value
/// and the stack from before.
pub proof fn lemma_take_undoes_place(s: Seq<Value>, depth: int, value: Value)
    requires
        0 <= depth <= s.len(),
    ensures
        at_depth(insert_at_depth(s, depth, value), depth) == value,
        remove_at_depth(insert_at_depth(s, depth, value), depth) == s,
{
    let t = insert_at_depth(s, depth, value);
    let k = s.len() - depth;
    assert(t.len() == s.len() + 1);
    assert(t[k] == value);
    assert(t.take(k) =~= s.take(k));
    assert(t.skip(k + 1) =~= s.skip(k));
    assert(s.take(k) + s.skip(k) =~= s);
}

/// Copying from depth zero duplicates the topmost value.
pub proof fn lemma_copy_top_duplicates(s: Seq<Value>)
    requires
        s.len() > 0,
    ensures
        s + Seq::<Value>::empty().reverse() + seq![at_depth(s, 0)] == s.push(s.last()),
{
    assert(Seq::<Value>::empty().reverse() =~= Seq::<Value>::empty());
    assert(s + Seq::<Value>::empty() + seq![s.last()] =~= s.push(s.last()));
}

/// Subtracting takes the top value from the one below it, wrapping around:
/// adding the top value back to the result gives the value below, and the
/// values underneath stay
pub proof fn law_sub_takes_top_from_below(
    s: Seq<Value>,
    saved: Seq<Value>,
    after: Seq<Value>,
    after_saved: Seq<Value>,
    mem: Seq<u8>,
    mem_after: Seq<u8>,
    result: Result,
)
    requires
        outcome(Builtin::Sub, s, saved, after, after_saved, mem, mem_after, result),
        s.len() >= 2,
    ensures
        result is Ok,
        after.len() == s.len() - 1,
        after.take(s.len() - 2) == s.take(s.len() - 2),
        (after.last().0 + s.last().0) % 256 == s[s.len() - 2].0,
        after_saved == saved,
        mem_after == mem,
{
    assert(pop_two(s) =~= s.take(s.len() - 2));
    let a = s[s.len() - 2].0 as int;
    let b = s.last().0 as int;
    assert(((a - b + 256) % 256 + b) % 256 == a) by (nonlinear_arith)
        requires
            0 <= a < 256,
            0 <= b < 256,
    ;
    assert(after.take(s.len() - 2) =~= pop_two(s));
}

/// Adding puts the sum of the two topmost values in their place, where the
/// sum fits in a byte, and fails with an overflow where it does not
pub proof fn law_add_sums_the_top_two(
    s: Seq<Value>,
    saved: Seq<Value>,
    after: Seq<Value>,
    after_saved: Seq<Value>,
    mem: Seq<u8>,
    mem_after: Seq<u8>,
    result: Result,
)
    requires
        outcome(Builtin::Add, s, saved, after, after_saved, mem, mem_after, result),
        s.len() >= 2,
    ensures
        s[s.len() - 2].0 + s.last().0 <= u8::MAX ==> {
            &&& result is Ok
            &&& after.len() == s.len() - 1
            &&& after.drop_last() == s.take(s.len() - 2)
            &&& after.last().0 == s[s.len() - 2].0 + s.last().0
        },
        s[s.len() - 2].0 + s.last().0 > u8::MAX ==> result == Err::<(), Error>(
            Error::IntegerOverflow,
        ),
        after_saved == saved,
        mem_after == mem,
{
    if s[s.len() - 2].0 + s.last().0 <= u8::MAX {
        assert(after.drop_last() =~= s.take(s.len() - 2));
    }
}

/// Multiplying puts the product of the two topmost values in their place
pub proof fn law_mul_multiplies_the_top_two(
    s: Seq<Value>,
    saved: Seq<Value>,
    after: Seq<Value>,
    after_saved: Seq<Value>,
    mem: Seq<u8>,
    mem_after: Seq<u8>,
    result: Result,
)
    requires
        outcome(Builtin::Mul, s, saved, after, after_saved, mem, mem_after, result),
        s.len() >= 2,
        s[s.len() - 2].0 * s.last().0 <= u8::MAX,
    ensures
        result is Ok,
        after.len() == s.len() - 1,
        after.drop_last() == s.take(s.len() - 2),
        after.last().0 == s[s.len() - 2].0 * s.last().0,
        after_saved == saved,
        mem_after == mem,
{
    assert(after.drop_last() =~= s.take(s.len() - 2));
}

/// Swapping exchanges the two topmost values and keeps the rest
pub proof fn law_swap_exchanges_the_top_two(
    s: Seq<Value>,
    saved: Seq<Value>,
    after: Seq<Value>,
    after_saved: Seq<Value>,
    mem: Seq<u8>,
    mem_after: Seq<u8>,
    result: Result,
)
    requires
        outcome(Builtin::Swap, s, saved, after, after_saved, mem, mem_after, result),
        s.len() >= 2,
    ensures
        result is Ok,
        after.len() == s.len(),
        after[s.len() - 1] == s[s.len() - 2],
        after[s.len() - 2] == s[s.len() - 1],
        after.take(s.len() - 2) == s.take(s.len() - 2),
        after_saved == saved,
        mem_after == mem,
{
    assert(after.take(s.len() - 2) =~= s.take(s.len() - 2));
}

/// Copying replaces the topmost value, a depth, with a copy of the value at
/// that depth below it
pub proof fn law_copy_duplicates_the_value_at_depth(
    s: Seq<Value>,
    saved: Seq<Value>,
    after: Seq<Value>,
    after_saved: Seq<Value>,
    mem: Seq<u8>,
    mem_after: Seq<u8>,
    result: Result,
)
    requires
        outcome(Builtin::Copy, s, saved, after, after_saved, mem, mem_after, result),
        saved.len() == 0,
        s.len() >= 1,
        s.last().0 < s.len() - 1,
    ensures
        result is Ok,
        after.len() == s.len(),
        after.drop_last() == s.drop_last(),
        after.last() == s[s.len() - 2 - s.last().0],
        after_saved.len() == 0,
        mem_after == mem,
{
    assert(saved.reverse() =~= Seq::<Value>::empty());
    assert(after.drop_last() =~= s.drop_last());
}

/// Dropping removes the topmost value, a depth, and the value at that depth
/// below it, and keeps the rest in order
pub proof fn law_drop_removes_the_value_at_depth(
    s: Seq<Value>,
    saved: Seq<Value>,
    after: Seq<Value>,
    after_saved: Seq<Value>,
    mem: Seq<u8>,
    mem_after: Seq<u8>,
    result: Result,
)
    requires
        outcome(Builtin::Drop, s, saved, after, after_saved, mem, mem_after, result),
        saved.len() == 0,
        s.len() >= 1,
        s.last().0 < s.len() - 1,
    ensures
        result is Ok,
        after == s.take(s.len() - 2 - s.last().0) + s.subrange(s.len() - 1 - s.last().0, s.len() - 1),
        after_saved.len() == 0,
        mem_after == mem,
{
    assert(saved.reverse() =~= Seq::<Value>::empty());
    assert(after =~= s.take(s.len() - 2 - s.last().0) + s.subrange(
        s.len() - 1 - s.last().0,
        s.len() - 1,
    ));
}

/// Taking moves the value at the depth given by the topmost value to the
/// top, in place of the depth, and keeps the rest in order
pub proof fn law_take_moves_the_value_at_depth_to_the_top(
    s: Seq<Value>,
    saved: Seq<Value>,
    after: Seq<Value>,
    after_saved: Seq<Value>,
    mem: Seq<u8>,
    mem_after: Seq<u8>,
    result: Result,
)
    requires
        outcome(Builtin::Take, s, saved, after, after_saved, mem, mem_after, result),
        saved.len() == 0,
        s.len() >= 1,
        s.last().0 < s.len() - 1,
    ensures
        result is Ok,
        after.len() == s.len() - 1,
        after.last() == s[s.len() - 2 - s.last().0],
        after.drop_last() == s.take(s.len() - 2 - s.last().0) + s.subrange(
            s.len() - 1 - s.last().0,
            s.len() - 1,
        ),
        after_saved.len() == 0,
        mem_after == mem,
{
    assert(saved.reverse() =~= Seq::<Value>::empty());
    assert(after.drop_last() =~= s.take(s.len() - 2 - s.last().0) + s.subrange(
        s.len() - 1 - s.last().0,
        s.len() - 1,
    ));
}

/// Placing moves the value below the topmost one, a depth, to that depth
/// below the values above it, and keeps the rest in order
pub proof fn law_place_puts_the_value_at_depth(
    s: Seq<Value>,
    saved: Seq<Value>,
    after: Seq<Value>,
    after_saved: Seq<Value>,
    mem: Seq<u8>,
    mem_after: Seq<u8>,
    result: Result,
)
    requires
        outcome(Builtin::Place, s, saved, after, after_saved, mem, mem_after, result),
        saved.len() == 0,
        s.len() >= 2,
        s.last().0 <= s.len() - 2,
    ensures
        result is Ok,
        after.len() == s.len() - 1,
        after[s.len() - 2 - s.last().0] == s[s.len() - 2],
        after.take(s.len() - 2 - s.last().0) == s.take(s.len() - 2 - s.last().0),
        after.skip(s.len() - 1 - s.last().0) == s.subrange(s.len() - 2 - s.last().0, s.len() - 2),
        after_saved.len() == 0,
        mem_after == mem,
{
    let k = s.len() - 2 - s.last().0;
    assert(saved.reverse() =~= Seq::<Value>::empty());
    assert(after.take(k) =~= s.take(k));
    assert(after.skip(k + 1) =~= s.subrange(k, s.len() - 2));
}

/// Storing writes the topmost value to memory at the address below it,
/// leaves the rest of memory as it was, and keeps the address on the stack
pub proof fn law_store_writes_the_value_at_the_address(
    s: Seq<Value>,
    saved: Seq<Value>,
    after: Seq<Value>,
    after_saved: Seq<Value>,
    mem: Seq<u8>,
    mem_after: Seq<u8>,
    result: Result,
)
    requires
        outcome(Builtin::Store, s, saved, after, after_saved, mem, mem_after, result),
        s.len() >= 2,
        s[s.len() - 2].0 < mem.len(),
    ensures
        result is Ok,
        mem_after.len() == mem.len(),
        mem_after[s[s.len() - 2].0 as int] == s.last().0,
        forall|j: int| 0 <= j < mem.len() && j != s[s.len() - 2].0 ==> mem_after[j] == mem[j],
        after.len() == s.len() - 1,
        after.drop_last() == s.take(s.len() - 2),
        after.last() == s[s.len() - 2],
        after_saved == saved,
{
    assert(after.drop_last() =~= s.take(s.len() - 2));
}

} // verus!
