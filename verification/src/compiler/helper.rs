//! How much room a value takes on the stack, and how it is stored there.

use crate::parser::ast::Type;
use vstd::prelude::*;

verus! {

/// Whether the backend can hold values of `declared` on the stack. Text
/// has no stack representation.
pub open spec fn is_sized(declared: Type) -> bool {
    declared != Type::String
}

/// The room, in bytes, that a value of `declared` takes on the stack.
pub open spec fn size_of_type(declared: Type) -> nat {
    match declared {
        Type::Int => 8,
        Type::Bool => 1,
        Type::String => 0,
    }
}

/// The instruction that stores a value of `declared`: `sd` for the eight
/// bytes of an integer, `sb` for the single byte of a truth value.
pub open spec fn store_mnemonic(declared: Type) -> Seq<char> {
    match declared {
        Type::Bool => "sb"@,
        _ => "sd"@,
    }
}

/// The room, in bytes, that a value of `declared` takes on the stack.
pub fn type_size(declared: Type) -> (size: usize)
    requires
        is_sized(declared),
    ensures
        size == size_of_type(declared),
{
    match declared {
        Type::Int => 8,
        _ => 1,
    }
}

/// The instruction that stores a value of `declared`.
pub fn store_instruction(declared: Type) -> (mnemonic: &'static str)
    requires
        is_sized(declared),
    ensures
        mnemonic@ == store_mnemonic(declared),
{
    if type_size(declared) == 1 {
        "sb"
    } else {
        "sd"
    }
}

} // verus!
