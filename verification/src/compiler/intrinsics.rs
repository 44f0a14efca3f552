//! The functions that the compiler provides to all code.

use vstd::prelude::*;

verus! {

/// # A function that the compiler provides
#[derive(Clone, Copy, Debug, PartialEq, Eq, Structural)]
pub enum IntrinsicFunction {
    AddS8,
    AddS32,
    AddU8,
    AddU8Wrap,
    And,
    Brk,
    Copy,
    DivS32,
    DivU8,
    Drop,
    Eq,
    Eval,
    GreaterS8,
    GreaterS32,
    GreaterU8,
    MulS32,
    MulU8Wrap,
    NegS32,
    Nop,
    Not,
    RemainderS32,
    S32ToS8,
    SubS32,
    SubU8,
    SubU8Wrap,
}

/// All intrinsic functions, in order
pub open spec fn all_intrinsics() -> Seq<IntrinsicFunction> {
    seq![
        IntrinsicFunction::AddS8,
        IntrinsicFunction::AddS32,
        IntrinsicFunction::AddU8,
        IntrinsicFunction::AddU8Wrap,
        IntrinsicFunction::And,
        IntrinsicFunction::Brk,
        IntrinsicFunction::Copy,
        IntrinsicFunction::DivS32,
        IntrinsicFunction::DivU8,
        IntrinsicFunction::Drop,
        IntrinsicFunction::Eq,
        IntrinsicFunction::Eval,
        IntrinsicFunction::GreaterS8,
        IntrinsicFunction::GreaterS32,
        IntrinsicFunction::GreaterU8,
        IntrinsicFunction::MulS32,
        IntrinsicFunction::MulU8Wrap,
        IntrinsicFunction::NegS32,
        IntrinsicFunction::Nop,
        IntrinsicFunction::Not,
        IntrinsicFunction::RemainderS32,
        IntrinsicFunction::S32ToS8,
        IntrinsicFunction::SubS32,
        IntrinsicFunction::SubU8,
        IntrinsicFunction::SubU8Wrap,
    ]
}

/// The position of an intrinsic function among all of them
pub open spec fn position_of(function: IntrinsicFunction) -> int {
    match function {
        IntrinsicFunction::AddS8 => 0,
        IntrinsicFunction::AddS32 => 1,
        IntrinsicFunction::AddU8 => 2,
        IntrinsicFunction::AddU8Wrap => 3,
        IntrinsicFunction::And => 4,
        IntrinsicFunction::Brk => 5,
        IntrinsicFunction::Copy => 6,
        IntrinsicFunction::DivS32 => 7,
        IntrinsicFunction::DivU8 => 8,
        IntrinsicFunction::Drop => 9,
        IntrinsicFunction::Eq => 10,
        IntrinsicFunction::Eval => 11,
        IntrinsicFunction::GreaterS8 => 12,
        IntrinsicFunction::GreaterS32 => 13,
        IntrinsicFunction::GreaterU8 => 14,
        IntrinsicFunction::MulS32 => 15,
        IntrinsicFunction::MulU8Wrap => 16,
        IntrinsicFunction::NegS32 => 17,
        IntrinsicFunction::Nop => 18,
        IntrinsicFunction::Not => 19,
        IntrinsicFunction::RemainderS32 => 20,
        IntrinsicFunction::S32ToS8 => 21,
        IntrinsicFunction::SubS32 => 22,
        IntrinsicFunction::SubU8 => 23,
        IntrinsicFunction::SubU8Wrap => 24,
    }
}

/// The name that code calls an intrinsic function by
pub open spec fn intrinsic_name(function: IntrinsicFunction) -> Seq<char> {
    match function {
        IntrinsicFunction::AddS8 => "add_s8"@,
        IntrinsicFunction::AddS32 => "add_s32"@,
        IntrinsicFunction::AddU8 => "add_u8"@,
        IntrinsicFunction::AddU8Wrap => "add_u8_wrap"@,
        IntrinsicFunction::And => "and"@,
        IntrinsicFunction::Brk => "brk"@,
        IntrinsicFunction::Copy => "copy"@,
        IntrinsicFunction::DivS32 => "div_s32"@,
        IntrinsicFunction::DivU8 => "div_u8"@,
        IntrinsicFunction::Drop => "drop"@,
        IntrinsicFunction::Eq => "eq"@,
        IntrinsicFunction::Eval => "eval"@,
        IntrinsicFunction::GreaterS8 => "greater_s8"@,
        IntrinsicFunction::GreaterS32 => "greater_s32"@,
        IntrinsicFunction::GreaterU8 => "greater_u8"@,
        IntrinsicFunction::MulS32 => "mul_s32"@,
        IntrinsicFunction::MulU8Wrap => "mul_u8_wrap"@,
        IntrinsicFunction::NegS32 => "neg_s32"@,
        IntrinsicFunction::Nop => "nop"@,
        IntrinsicFunction::Not => "not"@,
        IntrinsicFunction::RemainderS32 => "remainder_s32"@,
        IntrinsicFunction::S32ToS8 => "s32_to_s8"@,
        IntrinsicFunction::SubS32 => "sub_s32"@,
        IntrinsicFunction::SubU8 => "sub_u8"@,
        IntrinsicFunction::SubU8Wrap => "sub_u8_wrap"@,
    }
}

/// The intrinsic function with the given name, if there is one
pub open spec fn intrinsic_named(name: Seq<char>) -> Option<IntrinsicFunction> {
    if exists|function: IntrinsicFunction| intrinsic_name(function) == name {
        Some(choose|function: IntrinsicFunction| intrinsic_name(function) == name)
    } else {
        None
    }
}

/// Every intrinsic function is among all of them, at its position
pub proof fn lemma_all_intrinsics(function: IntrinsicFunction)
    ensures
        0 <= position_of(function) < all_intrinsics().len(),
        all_intrinsics()[position_of(function)] == function,
{
}

/// No two intrinsic functions have the same name
pub proof fn lemma_intrinsic_names_distinct(a: IntrinsicFunction, b: IntrinsicFunction)
    ensures
        intrinsic_name(a) == intrinsic_name(b) ==> a == b,
{
        reveal_strlit("add_s8");
        reveal_strlit("add_s32");
        reveal_strlit("add_u8");
        reveal_strlit("add_u8_wrap");
        reveal_strlit("and");
        reveal_strlit("brk");
        reveal_strlit("copy");
        reveal_strlit("div_s32");
        reveal_strlit("div_u8");
        reveal_strlit("drop");
        reveal_strlit("eq");
        reveal_strlit("eval");
        reveal_strlit("greater_s8");
        reveal_strlit("greater_s32");
        reveal_strlit("greater_u8");
        reveal_strlit("mul_s32");
        reveal_strlit("mul_u8_wrap");
        reveal_strlit("neg_s32");
        reveal_strlit("nop");
        reveal_strlit("not");
        reveal_strlit("remainder_s32");
        reveal_strlit("s32_to_s8");
        reveal_strlit("sub_s32");
        reveal_strlit("sub_u8");
        reveal_strlit("sub_u8_wrap");
    if intrinsic_name(a) == intrinsic_name(b) && a != b {
        assert(intrinsic_name(a).len() == intrinsic_name(b).len());
        assert(intrinsic_name(a)[0] == intrinsic_name(b)[0]);
        assert(intrinsic_name(a).last() == intrinsic_name(b).last());
        assert(intrinsic_name(a)[intrinsic_name(a).len() - 2] == intrinsic_name(b)[intrinsic_name(b).len() - 2]);
        assert(intrinsic_name(a)[1] == intrinsic_name(b)[1]);
        assert(intrinsic_name(a)[intrinsic_name(a).len() - 3] == intrinsic_name(b)[intrinsic_name(b).len() - 3]);
        assert(intrinsic_name(a)[2] == intrinsic_name(b)[2]);
        assert(intrinsic_name(a)[4] == intrinsic_name(b)[4]);
        assert(false);
    }
}

impl IntrinsicFunction {
    /// # All intrinsic functions, in order
    pub fn all() -> (result: Vec<IntrinsicFunction>)
        ensures
            result@ == all_intrinsics(),
    {
        let result = vec![
            IntrinsicFunction::AddS8,
            IntrinsicFunction::AddS32,
            IntrinsicFunction::AddU8,
            IntrinsicFunction::AddU8Wrap,
            IntrinsicFunction::And,
            IntrinsicFunction::Brk,
            IntrinsicFunction::Copy,
            IntrinsicFunction::DivS32,
            IntrinsicFunction::DivU8,
            IntrinsicFunction::Drop,
            IntrinsicFunction::Eq,
            IntrinsicFunction::Eval,
            IntrinsicFunction::GreaterS8,
            IntrinsicFunction::GreaterS32,
            IntrinsicFunction::GreaterU8,
            IntrinsicFunction::MulS32,
            IntrinsicFunction::MulU8Wrap,
            IntrinsicFunction::NegS32,
            IntrinsicFunction::Nop,
            IntrinsicFunction::Not,
            IntrinsicFunction::RemainderS32,
            IntrinsicFunction::S32ToS8,
            IntrinsicFunction::SubS32,
            IntrinsicFunction::SubU8,
            IntrinsicFunction::SubU8Wrap,
        ];
        assert(result@ =~= all_intrinsics());
        result
    }

    /// # The name that code calls the function by
    pub fn name(&self) -> (result: &'static str)
        ensures
            result@ == intrinsic_name(*self),
    {
        match self {
            IntrinsicFunction::AddS8 => "add_s8",
            IntrinsicFunction::AddS32 => "add_s32",
            IntrinsicFunction::AddU8 => "add_u8",
            IntrinsicFunction::AddU8Wrap => "add_u8_wrap",
            IntrinsicFunction::And => "and",
            IntrinsicFunction::Brk => "brk",
            IntrinsicFunction::Copy => "copy",
            IntrinsicFunction::DivS32 => "div_s32",
            IntrinsicFunction::DivU8 => "div_u8",
            IntrinsicFunction::Drop => "drop",
            IntrinsicFunction::Eq => "eq",
            IntrinsicFunction::Eval => "eval",
            IntrinsicFunction::GreaterS8 => "greater_s8",
            IntrinsicFunction::GreaterS32 => "greater_s32",
            IntrinsicFunction::GreaterU8 => "greater_u8",
            IntrinsicFunction::MulS32 => "mul_s32",
            IntrinsicFunction::MulU8Wrap => "mul_u8_wrap",
            IntrinsicFunction::NegS32 => "neg_s32",
            IntrinsicFunction::Nop => "nop",
            IntrinsicFunction::Not => "not",
            IntrinsicFunction::RemainderS32 => "remainder_s32",
            IntrinsicFunction::S32ToS8 => "s32_to_s8",
            IntrinsicFunction::SubS32 => "sub_s32",
            IntrinsicFunction::SubU8 => "sub_u8",
            IntrinsicFunction::SubU8Wrap => "sub_u8_wrap",
        }
    }

    /// # The intrinsic function with the given name, if there is one
    pub fn from_name(name: &str) -> (result: Option<IntrinsicFunction>)
        ensures
            result == intrinsic_named(name@),
    {
        let owned = name.to_owned();
        let all = IntrinsicFunction::all();
        let mut i: usize = 0;
        while i < all.len()
            invariant
                i <= all@.len(),
                all@ == all_intrinsics(),
                owned@ == name@,
                forall|j: int| 0 <= j < i ==> intrinsic_name(#[trigger] all@[j]) != name@,
            decreases all@.len() - i,
        {
            let function = all[i];
            if function.name().to_owned() == owned {
                proof {
                    let chosen = choose|f: IntrinsicFunction| intrinsic_name(f) == name@;
                    lemma_intrinsic_names_distinct(chosen, function);
                }
                return Some(function);
            }
            i = i + 1;
        }
        proof {
            assert forall|function: IntrinsicFunction| intrinsic_name(function) != name@ by {
                lemma_all_intrinsics(function);
                assert(intrinsic_name(all@[position_of(function)]) != name@);
            }
        }
        None
    }
}

} // verus!
