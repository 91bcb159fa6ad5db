//! The failures of each stage.

use vstd::prelude::*;

verus! {

/// Why an integer operation has no result.
#[derive(Clone, Copy, Debug, PartialEq, Eq, Structural)]
pub enum ArithmeticError {
    /// The divisor is zero.
    DivisionByZero,
    /// The result does not fit in 64 bits.
    Overflow,
}

/// Why a parse tree is not turned into a syntax tree.
#[derive(Clone, Copy, Debug, PartialEq, Eq, Structural)]
pub enum ParseError {
    /// A node has a rule, a child count or a text that the grammar never produces there.
    Malformed,
    /// A variable is introduced under a name with a period in it.
    DottedName,
}

/// Why a program is not compiled.
#[derive(Clone, Copy, Debug, PartialEq, Eq, Structural)]
pub enum CompileError {
    /// An integer literal that 64 bits do not hold, or that is no decimal integer.
    IntegerLiteral,
    /// A float literal that the table of float literals does not list.
    FloatLiteral,
    /// A function defined under a name that a function has.
    DuplicateFunction,
    /// A function defined under a name that a class has.
    FunctionNamedAsClass,
    /// A class declared under a name that a class has.
    DuplicateClass,
    /// A class declared under a name that a function has.
    ClassNamedAsFunction,
    /// `break` outside a loop.
    BreakOutsideLoop,
    /// `continue` outside a loop.
    ContinueOutsideLoop,
    /// `return` outside a function.
    ReturnOutsideFunction,
    /// A jump to a label that stands nowhere.
    UnresolvedLabel,
    /// A statement that the compiler does not lower.
    Unsupported,
    /// More labels, arguments or instructions than the machine can count.
    TooLarge,
}

/// Why the virtual machine stops with a failure.
#[derive(Debug, PartialEq)]
pub enum VmError {
    /// The value stack or the call stack holds fewer items than an instruction takes.
    Stack,
    /// An operand of a kind that the instruction does not work on.
    Type,
    /// A variable or member that does not exist, or a variable that exists already.
    Name,
    /// Division by zero, or a result that 64 bits do not hold.
    Arithmetic(ArithmeticError),
    /// The `assert` built-in was given `false`; the text is its message.
    AssertionFailure(String),
    /// A built-in or a constructor called with the wrong number or kind of arguments.
    BuiltinArg,
    /// A jump or a call to address zero.
    Address,
}

/// A [`VmError`] as a mathematical value.
pub enum VmErrorModel {
    Stack,
    Type,
    Name,
    Arithmetic(ArithmeticError),
    AssertionFailure(Seq<char>),
    BuiltinArg,
    Address,
}

impl View for VmError {
    type V = VmErrorModel;

    open spec fn view(&self) -> VmErrorModel {
        match self {
            VmError::Stack => VmErrorModel::Stack,
            VmError::Type => VmErrorModel::Type,
            VmError::Name => VmErrorModel::Name,
            VmError::Arithmetic(e) => VmErrorModel::Arithmetic(*e),
            VmError::AssertionFailure(s) => VmErrorModel::AssertionFailure(s@),
            VmError::BuiltinArg => VmErrorModel::BuiltinArg,
            VmError::Address => VmErrorModel::Address,
        }
    }
}

} // verus!
