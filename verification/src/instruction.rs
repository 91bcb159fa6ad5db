//! The instructions of the stack machine.

use crate::value::copy_type;
use crate::value::ValueType;
use crate::value::ValueTypeModel;
use vstd::prelude::*;

verus! {

/// An instruction of the stack machine.
#[derive(Debug, PartialEq)]
pub enum Instruction {
    Add,
    Sub,
    Mul,
    Div,
    Eq,
    Neq,
    Lt,
    Gt,
    LtEq,
    GtEq,
    Load(String),
    Store(String),
    NewVariable(String),
    Delete(String),
    Jump(usize),
    JumpIfFalse(usize),
    JumpIfTrue(usize),
    Call(String),
    Push(ValueType),
    Pop,
    Nop,
    Return,
    Clone,
    Swap,
    Rotate,
    MoveBack(usize),
}

/// An [`Instruction`] as a mathematical value.
pub enum InstructionModel {
    Add,
    Sub,
    Mul,
    Div,
    Eq,
    Neq,
    Lt,
    Gt,
    LtEq,
    GtEq,
    Load(Seq<char>),
    Store(Seq<char>),
    NewVariable(Seq<char>),
    Delete(Seq<char>),
    Jump(usize),
    JumpIfFalse(usize),
    JumpIfTrue(usize),
    Call(Seq<char>),
    Push(ValueTypeModel),
    Pop,
    Nop,
    Return,
    Clone,
    Swap,
    Rotate,
    MoveBack(usize),
}

impl View for Instruction {
    type V = InstructionModel;

    open spec fn view(&self) -> InstructionModel {
        match self {
            Instruction::Add => InstructionModel::Add,
            Instruction::Sub => InstructionModel::Sub,
            Instruction::Mul => InstructionModel::Mul,
            Instruction::Div => InstructionModel::Div,
            Instruction::Eq => InstructionModel::Eq,
            Instruction::Neq => InstructionModel::Neq,
            Instruction::Lt => InstructionModel::Lt,
            Instruction::Gt => InstructionModel::Gt,
            Instruction::LtEq => InstructionModel::LtEq,
            Instruction::GtEq => InstructionModel::GtEq,
            Instruction::Load(n) => InstructionModel::Load(n@),
            Instruction::Store(n) => InstructionModel::Store(n@),
            Instruction::NewVariable(n) => InstructionModel::NewVariable(n@),
            Instruction::Delete(n) => InstructionModel::Delete(n@),
            Instruction::Jump(a) => InstructionModel::Jump(*a),
            Instruction::JumpIfFalse(a) => InstructionModel::JumpIfFalse(*a),
            Instruction::JumpIfTrue(a) => InstructionModel::JumpIfTrue(*a),
            Instruction::Call(n) => InstructionModel::Call(n@),
            Instruction::Push(v) => InstructionModel::Push(v@),
            Instruction::Pop => InstructionModel::Pop,
            Instruction::Nop => InstructionModel::Nop,
            Instruction::Return => InstructionModel::Return,
            Instruction::Clone => InstructionModel::Clone,
            Instruction::Swap => InstructionModel::Swap,
            Instruction::Rotate => InstructionModel::Rotate,
            Instruction::MoveBack(n) => InstructionModel::MoveBack(*n),
        }
    }
}

/// The instructions of `code` as mathematical values.
pub open spec fn code_model(code: Seq<Instruction>) -> Seq<InstructionModel> {
    Seq::new(code.len(), |i: int| code[i]@)
}

impl Clone for Instruction {
    fn clone(&self) -> (r: Self)
        ensures
            r@ == self@,
    {
        match self {
            Instruction::Add => Instruction::Add,
            Instruction::Sub => Instruction::Sub,
            Instruction::Mul => Instruction::Mul,
            Instruction::Div => Instruction::Div,
            Instruction::Eq => Instruction::Eq,
            Instruction::Neq => Instruction::Neq,
            Instruction::Lt => Instruction::Lt,
            Instruction::Gt => Instruction::Gt,
            Instruction::LtEq => Instruction::LtEq,
            Instruction::GtEq => Instruction::GtEq,
            Instruction::Load(n) => Instruction::Load(n.clone()),
            Instruction::Store(n) => Instruction::Store(n.clone()),
            Instruction::NewVariable(n) => Instruction::NewVariable(n.clone()),
            Instruction::Delete(n) => Instruction::Delete(n.clone()),
            Instruction::Jump(a) => Instruction::Jump(*a),
            Instruction::JumpIfFalse(a) => Instruction::JumpIfFalse(*a),
            Instruction::JumpIfTrue(a) => Instruction::JumpIfTrue(*a),
            Instruction::Call(n) => Instruction::Call(n.clone()),
            Instruction::Push(v) => Instruction::Push(copy_type(v)),
            Instruction::Pop => Instruction::Pop,
            Instruction::Nop => Instruction::Nop,
            Instruction::Return => Instruction::Return,
            Instruction::Clone => Instruction::Clone,
            Instruction::Swap => Instruction::Swap,
            Instruction::Rotate => Instruction::Rotate,
            Instruction::MoveBack(n) => Instruction::MoveBack(*n),
        }
    }
}

} // verus!
