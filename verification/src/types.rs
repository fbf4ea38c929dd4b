//! The instructions of the virtual machine.

use vstd::prelude::*;

verus! {

/// An index into the stack, the globals or the fields of a value, and a count
/// of arguments.
pub type VMIndex = u32;

/// An integer of the virtual machine.
pub type VMInt = i64;

#[derive(Debug, Clone, Copy, PartialEq, Eq, Structural)]
pub enum Instruction {
    /// Pushes a copy of the stack slot with the given index.
    Push(VMIndex),
    PushInt(VMInt),
    /// Pushes the string constant with the given index.
    PushString(VMIndex),
    /// Pushes the global with the given index.
    PushGlobal(VMIndex),
    /// Pushes the floating-point number with the given bit pattern.
    PushFloat(u64),
    /// Calls the function below the given number of arguments.
    Call(VMIndex),
    TailCall(VMIndex),
    /// Builds the variant with the given tag from the given number of stack
    /// slots.
    Construct(VMIndex, VMIndex),
    /// Replaces the top of the stack by its field with the given index.
    GetField(VMIndex),
    SetField(VMIndex),
    /// Pushes the fields of the top of the stack.
    Split,
    TestTag(VMIndex),
    Jump(VMIndex),
    CJump(VMIndex),
    Pop(VMIndex),
    /// Takes the given number of slots out from under the top of the stack.
    Slide(VMIndex),
    AddInt,
    SubtractInt,
    MultiplyInt,
    IntLT,
    IntEQ,
}

} // verus!
