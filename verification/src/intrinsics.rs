//! The intrinsic functions of the language, and what applying them does.

use vstd::prelude::*;

use crate::nodes::NodeHash;

verus! {

/// # A function that the language provides
#[derive(Clone, Copy, Debug, PartialEq, Eq, Structural)]
pub enum IntrinsicFunction {
    Add,
    Drop,
    Eval,
    Identity,
}

impl IntrinsicFunction {
    /// # The name that code calls the function by
    pub fn name(&self) -> (result: &'static str)
        ensures
            result@ == match *self {
                IntrinsicFunction::Add => "+"@,
                IntrinsicFunction::Drop => "drop"@,
                IntrinsicFunction::Eval => "eval"@,
                IntrinsicFunction::Identity => "identity"@,
            },
    {
        match self {
            IntrinsicFunction::Add => "+",
            IntrinsicFunction::Drop => "drop",
            IntrinsicFunction::Eval => "eval",
            IntrinsicFunction::Identity => "identity",
        }
    }
}

/// # A value at runtime
#[derive(Debug)]
pub enum Value {
    /// A function, by the node of its body
    Function { body: NodeHash },
    Integer { value: i32 },
    Tuple { values: Vec<Value> },
}

/// # The type of a value
#[derive(Debug)]
pub enum Type {
    Function,
    Integer,
    Tuple { values: Vec<Type> },
}

/// # What applying an intrinsic function leads to
#[derive(Debug)]
pub enum IntrinsicOutcome {
    /// The function returns the value
    Return { value: Value },
    /// The function applies another one, whose body is at the given node, to
    /// the argument
    Apply { body: NodeHash, argument: Value },
    /// The input is not what the function expects
    UnexpectedInput { expected: Type, actual: Value },
}

/// The empty tuple: the value that is nothing
pub open spec fn is_nothing(value: Value) -> bool {
    value matches Value::Tuple { values } && values@.len() == 0
}

/// The two integers that a tuple of two integers holds
pub open spec fn integer_pair(value: Value) -> Option<(i32, i32)> {
    match value {
        Value::Tuple { values } => if values@.len() == 2 {
            match (values@[0], values@[1]) {
                (Value::Integer { value: a }, Value::Integer { value: b }) => Some((a, b)),
                _ => None,
            }
        } else {
            None
        },
        _ => None,
    }
}

/// Whether a type is that of a tuple of two integers
pub open spec fn is_integer_pair_type(t: Type) -> bool {
    match t {
        Type::Tuple { values } => values@.len() == 2 && (values@[0] is Integer) && (values@[1] is Integer),
        _ => false,
    }
}

/// What applying an intrinsic function to an input leads to
pub open spec fn applied(intrinsic: IntrinsicFunction, input: Value, result: IntrinsicOutcome) -> bool {
    match intrinsic {
        IntrinsicFunction::Add => match integer_pair(input) {
            Some((a, b)) => match result {
                IntrinsicOutcome::Return { value: Value::Integer { value } } => value == a + b,
                _ => false,
            },
            None => match result {
                IntrinsicOutcome::UnexpectedInput { expected, actual } => actual == input
                    && is_integer_pair_type(expected),
                _ => false,
            },
        },
        IntrinsicFunction::Drop => match result {
            IntrinsicOutcome::Return { value } => is_nothing(value),
            _ => false,
        },
        IntrinsicFunction::Eval => match input {
            Value::Function { body } => match result {
                IntrinsicOutcome::Apply { body: applied_body, argument } => applied_body == body
                    && is_nothing(argument),
                _ => false,
            },
            _ => match result {
                IntrinsicOutcome::UnexpectedInput { expected, actual } => actual == input
                    && expected is Function,
                _ => false,
            },
        },
        IntrinsicFunction::Identity => match result {
            IntrinsicOutcome::Return { value } => value == input,
            _ => false,
        },
    }
}

/// # Apply an intrinsic function to an input
///
/// `+` adds the two integers of a tuple, `drop` returns nothing, `identity`
/// returns its input, and `eval` applies a function to nothing. Where the
/// sum of `+` would not fit into an `i32`, the function may not be applied.
pub fn apply_intrinsic_function(intrinsic: &IntrinsicFunction, input: Value) -> (result: IntrinsicOutcome)
    requires
        *intrinsic == IntrinsicFunction::Add ==> match integer_pair(input) {
            Some((a, b)) => i32::MIN <= a + b <= i32::MAX,
            None => true,
        },
    ensures
        applied(*intrinsic, input, result),
{
    match intrinsic {
        IntrinsicFunction::Add => {
            let sum = match &input {
                Value::Tuple { values } => {
                    if values.len() == 2 {
                        match (&values[0], &values[1]) {
                            (Value::Integer { value: a }, Value::Integer { value: b }) => Some(
                                *a + *b,
                            ),
                            _ => None,
                        }
                    } else {
                        None
                    }
                },
                _ => None,
            };
            match sum {
                Some(value) => IntrinsicOutcome::Return { value: Value::Integer { value } },
                None => IntrinsicOutcome::UnexpectedInput {
                    expected: Type::Tuple { values: vec![Type::Integer, Type::Integer] },
                    actual: input,
                },
            }
        },
        IntrinsicFunction::Drop => IntrinsicOutcome::Return { value: Value::Tuple { values: Vec::new() } },
        IntrinsicFunction::Eval => match input {
            Value::Function { body } => IntrinsicOutcome::Apply {
                body,
                argument: Value::Tuple { values: Vec::new() },
            },
            input => IntrinsicOutcome::UnexpectedInput { expected: Type::Function, actual: input },
        },
        IntrinsicFunction::Identity => IntrinsicOutcome::Return { value: input },
    }
}

} // verus!
