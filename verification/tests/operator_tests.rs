use bare_script::error::ArithmeticError;
use bare_script::error::VmError;
use bare_script::int_value::IntValue;
use bare_script::operators::apply;
use bare_script::operators::BinaryOp;
use bare_script::operators::Computed;
use bare_script::operators::FloatTask;
use bare_script::operators::Number;
use bare_script::value::BoolValue;
use bare_script::value::FloatValue;
use bare_script::value::StringValue;
use bare_script::value::Value;
use bare_script::value::ValueType;

fn small(v: i8) -> ValueType {
    ValueType::Int(IntValue::Int8(v))
}

fn text(s: &str) -> ValueType {
    ValueType::String(StringValue::new(s.to_string()))
}

fn boolean(b: bool) -> Result<Computed, VmError> {
    Ok(Computed::Value(ValueType::Bool(BoolValue::new(b))))
}

fn narrow() -> FloatValue {
    FloatValue::Float32(0x3fc00000, "1.5".to_string())
}

fn wide() -> FloatValue {
    FloatValue::Float64(0x4004000000000000, "2.5".to_string())
}

#[test]
fn integers_are_computed_with() {
    assert_eq!(small(1).add(small(2)), Ok(Computed::Value(small(3))));
    assert_eq!(small(1).sub(small(2)), Ok(Computed::Value(small(-1))));
    assert_eq!(small(3).mul(small(4)), Ok(Computed::Value(small(12))));
    assert_eq!(small(9).div(small(2)), Ok(Computed::Value(small(4))));
    assert_eq!(
        small(127).add(small(1)),
        Ok(Computed::Value(ValueType::Int(IntValue::Int16(128))))
    );
    assert_eq!(
        small(1).div(small(0)),
        Err(VmError::Arithmetic(ArithmeticError::DivisionByZero))
    );
    assert_eq!(
        ValueType::Int(IntValue::Int64(i64::MAX)).add(small(1)),
        Err(VmError::Arithmetic(ArithmeticError::Overflow))
    );
}

#[test]
fn integers_are_compared() {
    assert_eq!(small(1).eq(small(1)), boolean(true));
    assert_eq!(small(1).ne(small(1)), boolean(false));
    assert_eq!(small(1).lt(small(2)), boolean(true));
    assert_eq!(small(1).gt(small(2)), boolean(false));
    assert_eq!(small(2).le(small(2)), boolean(true));
    assert_eq!(small(1).ge(small(2)), boolean(false));
    assert_eq!(
        small(5).eq(ValueType::Int(IntValue::Int64(5))),
        boolean(true)
    );
}

#[test]
fn strings_are_joined_and_compared_for_equality_only() {
    assert_eq!(text("ab").add(text("cd")), Ok(Computed::Value(text("abcd"))));
    assert_eq!(text("ab").eq(text("ab")), boolean(true));
    assert_eq!(text("ab").ne(text("ab")), boolean(false));
    assert_eq!(text("ab").ne(text("b")), boolean(true));
    assert_eq!(text("ab").sub(text("b")), Err(VmError::Type));
    assert_eq!(text("ab").mul(text("b")), Err(VmError::Type));
    assert_eq!(text("ab").div(text("b")), Err(VmError::Type));
    assert_eq!(text("ab").lt(text("b")), Err(VmError::Type));
    assert_eq!(text("ab").gt(text("b")), Err(VmError::Type));
    assert_eq!(text("ab").le(text("b")), Err(VmError::Type));
    assert_eq!(text("ab").ge(text("b")), Err(VmError::Type));
}

#[test]
fn vectors_are_joined_and_nothing_else() {
    let a = ValueType::Vector(vec![Value::Value(small(1))]);
    let b = ValueType::Vector(vec![Value::Value(small(2)), Value::Value(small(3))]);
    assert_eq!(
        a.clone().add(b.clone()),
        Ok(Computed::Value(ValueType::Vector(vec![
            Value::Value(small(1)),
            Value::Value(small(2)),
            Value::Value(small(3))
        ])))
    );
    assert_eq!(a.clone().eq(b.clone()), Err(VmError::Type));
    assert_eq!(a.clone().ne(b.clone()), Err(VmError::Type));
    assert_eq!(a.clone().sub(b.clone()), Err(VmError::Type));
    assert_eq!(a.lt(b), Err(VmError::Type));
}

#[test]
fn other_mixes_are_type_errors() {
    assert_eq!(small(1).add(text("a")), Err(VmError::Type));
    assert_eq!(text("a").add(small(1)), Err(VmError::Type));
    assert_eq!(
        ValueType::Bool(BoolValue::new(true)).eq(ValueType::Bool(BoolValue::new(true))),
        Err(VmError::Type)
    );
    assert_eq!(
        ValueType::Bool(BoolValue::new(true)).add(small(1)),
        Err(VmError::Type)
    );
    assert_eq!(
        ValueType::Vector(vec![]).add(small(1)),
        Err(VmError::Type)
    );
    assert_eq!(
        ValueType::Float(narrow()).add(text("a")),
        Err(VmError::Type)
    );
}

#[test]
fn two_floats_make_an_operation_at_the_wider_width() {
    assert_eq!(
        ValueType::Float(narrow()).add(ValueType::Float(narrow())),
        Ok(Computed::Float(FloatTask {
            op: BinaryOp::Add,
            lhs: Number::Float(narrow()),
            rhs: Number::Float(narrow()),
            width: 4,
            widen: true
        }))
    );
    assert_eq!(
        ValueType::Float(narrow()).mul(ValueType::Float(wide())),
        Ok(Computed::Float(FloatTask {
            op: BinaryOp::Mul,
            lhs: Number::Float(narrow()),
            rhs: Number::Float(wide()),
            width: 8,
            widen: false
        }))
    );
    assert_eq!(
        ValueType::Float(narrow()).lt(ValueType::Float(narrow())),
        Ok(Computed::Float(FloatTask {
            op: BinaryOp::Lt,
            lhs: Number::Float(narrow()),
            rhs: Number::Float(narrow()),
            width: 4,
            widen: false
        }))
    );
}

#[test]
fn a_float_and_an_integer_make_an_operation_at_the_floats_width() {
    assert_eq!(
        small(2).sub(ValueType::Float(narrow())),
        Ok(Computed::Float(FloatTask {
            op: BinaryOp::Sub,
            lhs: Number::Int(IntValue::Int8(2)),
            rhs: Number::Float(narrow()),
            width: 4,
            widen: false
        }))
    );
    assert_eq!(
        ValueType::Float(wide()).ge(ValueType::Int(IntValue::Int64(2))),
        Ok(Computed::Float(FloatTask {
            op: BinaryOp::GtEq,
            lhs: Number::Float(wide()),
            rhs: Number::Int(IntValue::Int64(2)),
            width: 8,
            widen: false
        }))
    );
}

#[test]
fn every_operator_goes_through_apply() {
    assert_eq!(apply(BinaryOp::Add, small(1), small(2)), Ok(Computed::Value(small(3))));
    assert_eq!(apply(BinaryOp::Neq, small(1), small(2)), boolean(true));
    assert_eq!(apply(BinaryOp::LtEq, small(3), small(2)), boolean(false));
    assert_eq!(apply(BinaryOp::GtEq, small(3), small(2)), boolean(true));
    assert!(BinaryOp::Div.arithmetic());
    assert!(!BinaryOp::Eq.arithmetic());
    assert_eq!(narrow().get_size(), 4);
    assert_eq!(wide().get_size(), 8);
    assert_eq!(narrow().use_size_of_biggest(&wide()), 8);
    assert_eq!(narrow().use_size_of_biggest(&narrow()), 4);
}
