//! The operators on two values.

use crate::error::ArithmeticError;
use crate::error::VmError;
use crate::error::VmErrorModel;
use crate::int_value::arith;
use crate::int_value::quotient;
use crate::int_value::max_bytes;
use crate::int_value::IntValue;
use crate::value::values_model;
use crate::value::BoolValue;
use crate::value::FloatModel;
use crate::value::FloatValue;
use crate::value::ValueType;
use crate::value::ValueTypeModel;
use vstd::prelude::*;

verus! {

/// An operator that takes two operands.
#[derive(Clone, Copy, Debug, PartialEq, Eq, Structural)]
pub enum BinaryOp {
    Add,
    Sub,
    Mul,
    Div,
    Eq,
    Neq,
    Lt,
    Gt,
    LtEq,
    GtEq,
}

impl BinaryOp {
    /// Whether the operator is one of the four that compute a number.
    pub open spec fn is_arithmetic(self) -> bool {
        self == BinaryOp::Add || self == BinaryOp::Sub || self == BinaryOp::Mul || self
            == BinaryOp::Div
    }

    /// Whether the operator is one of the four that compute a number.
    pub fn arithmetic(self) -> (r: bool)
        ensures
            r == self.is_arithmetic(),
    {
        match self {
            BinaryOp::Add | BinaryOp::Sub | BinaryOp::Mul | BinaryOp::Div => true,
            _ => false,
        }
    }
}

/// An operand of an operation on floats: an integer or a float.
#[derive(Debug, PartialEq)]
pub enum Number {
    Int(IntValue),
    Float(FloatValue),
}

/// A [`Number`] as a mathematical value.
pub enum NumberModel {
    Int(IntValue),
    Float(FloatModel),
}

impl View for Number {
    type V = NumberModel;

    open spec fn view(&self) -> NumberModel {
        match self {
            Number::Int(i) => NumberModel::Int(*i),
            Number::Float(f) => NumberModel::Float(f@),
        }
    }
}

/// An operation with a float among its operands, which the machine leaves to whoever drives
/// it. `width` is the number of bytes of the float type at which it is to be carried out: an
/// integer operand is converted to that type first. `widen` says that a result which is not
/// finite at 4 bytes is to be computed again at 8.
#[derive(Debug, PartialEq)]
pub struct FloatTask {
    pub op: BinaryOp,
    pub lhs: Number,
    pub rhs: Number,
    pub width: usize,
    pub widen: bool,
}

/// A [`FloatTask`] as a mathematical value.
pub struct FloatTaskModel {
    pub op: BinaryOp,
    pub lhs: NumberModel,
    pub rhs: NumberModel,
    pub width: int,
    pub widen: bool,
}

impl View for FloatTask {
    type V = FloatTaskModel;

    open spec fn view(&self) -> FloatTaskModel {
        FloatTaskModel {
            op: self.op,
            lhs: self.lhs@,
            rhs: self.rhs@,
            width: self.width as int,
            widen: self.widen,
        }
    }
}

/// What an operator gives on two operands: a value, or the float operation that is left to do.
#[derive(Debug, PartialEq)]
pub enum Computed {
    Value(ValueType),
    Float(FloatTask),
}

/// A [`Computed`] as a mathematical value.
pub enum ComputedModel {
    Value(ValueTypeModel),
    Float(FloatTaskModel),
}

impl View for Computed {
    type V = ComputedModel;

    open spec fn view(&self) -> ComputedModel {
        match self {
            Computed::Value(v) => ComputedModel::Value(v@),
            Computed::Float(t) => ComputedModel::Float(t@),
        }
    }
}

/// The number of bytes of a float.
pub open spec fn float_size(f: FloatModel) -> int {
    if f.wide {
        8
    } else {
        4
    }
}

/// An arithmetic result as the machine reports it.
pub open spec fn lifted(r: Result<IntValue, ArithmeticError>) -> Result<ComputedModel, VmErrorModel> {
    match r {
        Ok(i) => Ok(ComputedModel::Value(ValueTypeModel::Int(i))),
        Err(e) => Err(VmErrorModel::Arithmetic(e)),
    }
}

/// A truth value as a computed value.
pub open spec fn truth(b: bool) -> Result<ComputedModel, VmErrorModel> {
    Ok(ComputedModel::Value(ValueTypeModel::Bool(b)))
}

/// What `op` gives on two integers: the four arithmetic operators widen as the result needs,
/// the six comparisons compare the integers whatever their tags.
pub open spec fn compute_int(op: BinaryOp, a: IntValue, b: IntValue) -> Result<ComputedModel, VmErrorModel> {
    let from = max_bytes(a.byte_size(), b.byte_size());
    match op {
        BinaryOp::Add => lifted(arith(a.value() + b.value(), from)),
        BinaryOp::Sub => lifted(arith(a.value() - b.value(), from)),
        BinaryOp::Mul => lifted(arith(a.value() * b.value(), from)),
        BinaryOp::Div => lifted(quotient(a.value(), b.value(), from)),
        BinaryOp::Eq => truth(a.value() == b.value()),
        BinaryOp::Neq => truth(a.value() != b.value()),
        BinaryOp::Lt => truth(a.value() < b.value()),
        BinaryOp::Gt => truth(a.value() > b.value()),
        BinaryOp::LtEq => truth(a.value() <= b.value()),
        BinaryOp::GtEq => truth(a.value() >= b.value()),
    }
}

/// What `op` gives on two values that are no objects.
///
/// Two integers are computed with. Two floats, or a float and an integer, make a float
/// operation: of two floats at the wider of their widths, widening the result of an arithmetic
/// operator at 4 bytes where it is not finite; of a float and an integer at the float's
/// width, without widening. Two strings can be joined and compared for equality, two vectors
/// joined. Anything else is a type error.
pub open spec fn compute(op: BinaryOp, lhs: ValueTypeModel, rhs: ValueTypeModel) -> Result<
    ComputedModel,
    VmErrorModel,
> {
    match (lhs, rhs) {
        (ValueTypeModel::Int(a), ValueTypeModel::Int(b)) => compute_int(op, a, b),
        (ValueTypeModel::Float(a), ValueTypeModel::Float(b)) => Ok(
            ComputedModel::Float(
                FloatTaskModel {
                    op,
                    lhs: NumberModel::Float(a),
                    rhs: NumberModel::Float(b),
                    width: max_bytes(float_size(a), float_size(b)),
                    widen: op.is_arithmetic() && !a.wide && !b.wide,
                },
            ),
        ),
        (ValueTypeModel::Int(a), ValueTypeModel::Float(b)) => Ok(
            ComputedModel::Float(
                FloatTaskModel {
                    op,
                    lhs: NumberModel::Int(a),
                    rhs: NumberModel::Float(b),
                    width: float_size(b),
                    widen: false,
                },
            ),
        ),
        (ValueTypeModel::Float(a), ValueTypeModel::Int(b)) => Ok(
            ComputedModel::Float(
                FloatTaskModel {
                    op,
                    lhs: NumberModel::Float(a),
                    rhs: NumberModel::Int(b),
                    width: float_size(a),
                    widen: false,
                },
            ),
        ),
        (ValueTypeModel::String(a), ValueTypeModel::String(b)) => match op {
            BinaryOp::Add => Ok(ComputedModel::Value(ValueTypeModel::String(a + b))),
            BinaryOp::Eq => truth(a == b),
            BinaryOp::Neq => truth(a != b),
            _ => Err(VmErrorModel::Type),
        },
        (ValueTypeModel::Vector(a), ValueTypeModel::Vector(b)) => match op {
            BinaryOp::Add => Ok(ComputedModel::Value(ValueTypeModel::Vector(a + b))),
            _ => Err(VmErrorModel::Type),
        },
        _ => Err(VmErrorModel::Type),
    }
}

fn lift(r: Result<IntValue, ArithmeticError>) -> (out: Result<Computed, VmError>)
    ensures
        match lifted(r) {
            Ok(c) => out matches Ok(x) && x@ == c,
            Err(e) => out matches Err(x) && x@ == e,
        },
{
    match r {
        Ok(i) => Ok(Computed::Value(ValueType::Int(i))),
        Err(e) => Err(VmError::Arithmetic(e)),
    }
}

fn truth_of(b: bool) -> (out: Result<Computed, VmError>)
    ensures
        out matches Ok(x) && Ok::<ComputedModel, VmErrorModel>(x@) == truth(b),
{
    Ok(Computed::Value(ValueType::Bool(BoolValue::new(b))))
}

fn apply_int(op: BinaryOp, a: IntValue, b: IntValue) -> (out: Result<Computed, VmError>)
    ensures
        match compute_int(op, a, b) {
            Ok(c) => out matches Ok(x) && x@ == c,
            Err(e) => out matches Err(x) && x@ == e,
        },
{
    match op {
        BinaryOp::Add => lift(a.add(b)),
        BinaryOp::Sub => lift(a.sub(b)),
        BinaryOp::Mul => lift(a.mul(b)),
        BinaryOp::Div => lift(a.div(b)),
        BinaryOp::Eq => truth_of(a.eq(b)),
        BinaryOp::Neq => truth_of(a.ne(b)),
        BinaryOp::Lt => truth_of(a.lt(b)),
        BinaryOp::Gt => truth_of(a.gt(b)),
        BinaryOp::LtEq => truth_of(a.le(b)),
        BinaryOp::GtEq => truth_of(a.ge(b)),
    }
}

impl FloatValue {
    /// The number of bytes of the float: 4 or 8.
    pub fn get_size(&self) -> (r: usize)
        ensures
            r == float_size(self@),
    {
        match self {
            FloatValue::Float32(_, _) => 4,
            FloatValue::Float64(_, _) => 8,
        }
    }

    /// The width at which an operation on `self` and `other` is carried out: the wider of the two.
    pub fn use_size_of_biggest(&self, other: &Self) -> (r: usize)
        ensures
            r == max_bytes(float_size(self@), float_size(other@)),
    {
        if self.get_size() > other.get_size() {
            self.get_size()
        } else {
            other.get_size()
        }
    }
}

/// What `op` gives on `lhs` and `rhs`.
pub fn apply(op: BinaryOp, lhs: ValueType, rhs: ValueType) -> (out: Result<Computed, VmError>)
    ensures
        match compute(op, lhs@, rhs@) {
            Ok(c) => out matches Ok(x) && x@ == c,
            Err(e) => out matches Err(x) && x@ == e,
        },
{
    match (lhs, rhs) {
        (ValueType::Int(a), ValueType::Int(b)) => apply_int(op, a, b),
        (ValueType::Float(a), ValueType::Float(b)) => {
            let width = a.use_size_of_biggest(&b);
            let widen = op.arithmetic() && width == 4;
            Ok(Computed::Float(FloatTask { op, lhs: Number::Float(a), rhs: Number::Float(b), width, widen }))
        },
        (ValueType::Int(a), ValueType::Float(b)) => {
            let width = b.get_size();
            Ok(
                Computed::Float(
                    FloatTask { op, lhs: Number::Int(a), rhs: Number::Float(b), width, widen: false },
                ),
            )
        },
        (ValueType::Float(a), ValueType::Int(b)) => {
            let width = a.get_size();
            Ok(
                Computed::Float(
                    FloatTask { op, lhs: Number::Float(a), rhs: Number::Int(b), width, widen: false },
                ),
            )
        },
        (ValueType::String(a), ValueType::String(b)) => match op {
            BinaryOp::Add => Ok(Computed::Value(ValueType::String(a.add(b)))),
            BinaryOp::Eq => truth_of(a.eq(b)),
            BinaryOp::Neq => truth_of(a.ne(b)),
            _ => Err(VmError::Type),
        },
        (ValueType::Vector(a), ValueType::Vector(b)) => match op {
            BinaryOp::Add => {
                let mut a = a;
                let mut b = b;
                let ghost first = a@;
                let ghost second = b@;
                a.append(&mut b);
                assert(values_model(a@) =~= values_model(first) + values_model(second));
                Ok(Computed::Value(ValueType::Vector(a)))
            },
            _ => Err(VmError::Type),
        },
        _ => Err(VmError::Type),
    }
}

impl ValueType {
    /// The sum of two numbers, or two strings or two vectors joined.
    pub fn add(self, other: Self) -> (out: Result<Computed, VmError>)
        ensures
            match compute(BinaryOp::Add, self@, other@) {
                Ok(c) => out matches Ok(x) && x@ == c,
                Err(e) => out matches Err(x) && x@ == e,
            },
    {
        apply(BinaryOp::Add, self, other)
    }

    /// The difference of two numbers.
    pub fn sub(self, other: Self) -> (out: Result<Computed, VmError>)
        ensures
            match compute(BinaryOp::Sub, self@, other@) {
                Ok(c) => out matches Ok(x) && x@ == c,
                Err(e) => out matches Err(x) && x@ == e,
            },
    {
        apply(BinaryOp::Sub, self, other)
    }

    /// The product of two numbers.
    pub fn mul(self, other: Self) -> (out: Result<Computed, VmError>)
        ensures
            match compute(BinaryOp::Mul, self@, other@) {
                Ok(c) => out matches Ok(x) && x@ == c,
                Err(e) => out matches Err(x) && x@ == e,
            },
    {
        apply(BinaryOp::Mul, self, other)
    }

    /// The quotient of two numbers.
    pub fn div(self, other: Self) -> (out: Result<Computed, VmError>)
        ensures
            match compute(BinaryOp::Div, self@, other@) {
                Ok(c) => out matches Ok(x) && x@ == c,
                Err(e) => out matches Err(x) && x@ == e,
            },
    {
        apply(BinaryOp::Div, self, other)
    }

    /// Whether two numbers or two strings are equal.
    pub fn eq(self, other: Self) -> (out: Result<Computed, VmError>)
        ensures
            match compute(BinaryOp::Eq, self@, other@) {
                Ok(c) => out matches Ok(x) && x@ == c,
                Err(e) => out matches Err(x) && x@ == e,
            },
    {
        apply(BinaryOp::Eq, self, other)
    }

    /// Whether two numbers or two strings differ.
    pub fn ne(self, other: Self) -> (out: Result<Computed, VmError>)
        ensures
            match compute(BinaryOp::Neq, self@, other@) {
                Ok(c) => out matches Ok(x) && x@ == c,
                Err(e) => out matches Err(x) && x@ == e,
            },
    {
        apply(BinaryOp::Neq, self, other)
    }

    /// Whether the first of two numbers is the greater.
    pub fn gt(self, other: Self) -> (out: Result<Computed, VmError>)
        ensures
            match compute(BinaryOp::Gt, self@, other@) {
                Ok(c) => out matches Ok(x) && x@ == c,
                Err(e) => out matches Err(x) && x@ == e,
            },
    {
        apply(BinaryOp::Gt, self, other)
    }

    /// Whether the first of two numbers is the smaller.
    pub fn lt(self, other: Self) -> (out: Result<Computed, VmError>)
        ensures
            match compute(BinaryOp::Lt, self@, other@) {
                Ok(c) => out matches Ok(x) && x@ == c,
                Err(e) => out matches Err(x) && x@ == e,
            },
    {
        apply(BinaryOp::Lt, self, other)
    }

    /// Whether the first of two numbers is at least the second.
    pub fn ge(self, other: Self) -> (out: Result<Computed, VmError>)
        ensures
            match compute(BinaryOp::GtEq, self@, other@) {
                Ok(c) => out matches Ok(x) && x@ == c,
                Err(e) => out matches Err(x) && x@ == e,
            },
    {
        apply(BinaryOp::GtEq, self, other)
    }

    /// Whether the first of two numbers is at most the second.
    pub fn le(self, other: Self) -> (out: Result<Computed, VmError>)
        ensures
            match compute(BinaryOp::LtEq, self@, other@) {
                Ok(c) => out matches Ok(x) && x@ == c,
                Err(e) => out matches Err(x) && x@ == e,
            },
    {
        apply(BinaryOp::LtEq, self, other)
    }
}

} // verus!
