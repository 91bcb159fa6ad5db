use bare_script::error::VmError;
use bare_script::int_value::IntValue;
use bare_script::value::copy_value;
use bare_script::value::has_scalar;
use bare_script::value::BoolValue;
use bare_script::value::FloatValue;
use bare_script::value::Object;
use bare_script::value::ObjectCreator;
use bare_script::value::StringValue;
use bare_script::value::Value;
use bare_script::value::ValueType;

fn small(v: i8) -> Value {
    Value::Value(ValueType::Int(IntValue::Int8(v)))
}

fn text(s: &str) -> Value {
    Value::Value(ValueType::String(StringValue::new(s.to_string())))
}

fn list(items: Vec<Value>) -> Value {
    Value::Value(ValueType::Vector(items))
}

fn point() -> Object {
    let mut creator = ObjectCreator::new("Point".to_string());
    creator.add_member("x".to_string());
    creator.add_member("y".to_string());
    creator.create(vec![small(3), small(4)]).unwrap()
}

#[test]
fn plain_values_render_as_the_text_says() {
    assert_eq!(small(7).as_string(), Some("7".to_string()));
    assert_eq!(
        Value::Value(ValueType::Int(IntValue::Int64(-9000000000))).as_string(),
        Some("-9000000000".to_string())
    );
    assert_eq!(Value::from_bool(true).as_string(), Some("true".to_string()));
    assert_eq!(Value::from_bool(false).as_string(), Some("false".to_string()));
    assert_eq!(text("hi there").as_string(), Some("hi there".to_string()));
    assert_eq!(
        Value::Value(ValueType::Float(FloatValue::Float32(0x3fc00000, "1.5".to_string()))).as_string(),
        Some("1.5".to_string())
    );
    assert_eq!(
        Value::from_int_val(IntValue::Int16(300)).as_string(),
        Some("300".to_string())
    );
}

#[test]
fn vectors_render_between_brackets() {
    assert_eq!(
        list(vec![small(1), small(2), small(3)]).as_string(),
        Some("[1, 2, 3]".to_string())
    );
    assert_eq!(list(vec![small(1)]).as_string(), Some("[1]".to_string()));
    assert_eq!(
        list(vec![list(vec![small(1), text("a")]), Value::from_bool(true)]).as_string(),
        Some("[[1, a], true]".to_string())
    );
}

#[test]
fn a_vector_without_elements_renders_as_two_brackets() {
    assert_eq!(list(vec![]).as_string(), Some("[]".to_string()));
    assert_eq!(
        list(vec![list(vec![]), small(1)]).as_string(),
        Some("[[], 1]".to_string())
    );
    assert_eq!(list(vec![small(1), list(vec![])]).as_string(), Some("[1, []]".to_string()));
}

#[test]
fn a_variable_record_renders_as_its_value() {
    let boxed = Object::new(String::new()).set_value(small(5));
    assert_eq!(Value::Object(boxed).as_string(), Some("5".to_string()));
}

#[test]
fn a_record_renders_with_its_class_and_members() {
    assert_eq!(
        Value::Object(point()).as_string(),
        Some("\"Point\" {\"x\": 3, \"y\": 4}".to_string())
    );
    assert_eq!(
        Value::Object(Object::new("Empty".to_string())).as_string(),
        Some("\"Empty\" {}".to_string())
    );
    assert_eq!(point().describe(), Some("\"Point\" {\"x\": 3, \"y\": 4}".to_string()));
}

#[test]
fn a_record_whose_value_stands_for_nothing_has_no_text() {
    let inner = Object::new("Inner".to_string());
    let outer = Object::new("Outer".to_string()).set_value(Value::Object(inner));
    assert_eq!(Value::Object(outer).as_string(), None);
    let outer = Object::new("Outer".to_string()).set_value(Value::Object(Object::new("I".to_string())));
    assert_eq!(list(vec![small(1), Value::Object(outer)]).as_string(), None);
}

#[test]
fn the_plain_value_of_a_value() {
    assert_eq!(small(5).to_val(), Ok(ValueType::Int(IntValue::Int8(5))));
    let boxed = Object::new(String::new()).set_value(text("s"));
    assert_eq!(
        Value::Object(boxed).to_val(),
        Ok(ValueType::String(StringValue::new("s".to_string())))
    );
    assert_eq!(Value::Object(point()).to_val(), Err(VmError::Type));
    assert!(has_scalar(&small(1)));
    assert!(!has_scalar(&Value::Object(point())));
    let nested = Object::new(String::new())
        .set_value(Value::Object(Object::new(String::new()).set_value(small(9))));
    assert_eq!(Value::Object(nested).to_val(), Ok(ValueType::Int(IntValue::Int8(9))));
}

#[test]
fn reading_the_value_of_a_record() {
    assert_eq!(point().get_value(), Ok(None));
    let boxed = Object::new(String::new()).set_value(small(5));
    assert_eq!(boxed.get_value(), Ok(Some(ValueType::Int(IntValue::Int8(5)))));
    let broken = Object::new(String::new()).set_value(Value::Object(point()));
    assert_eq!(broken.get_value(), Err(VmError::Type));
}

#[test]
fn setting_a_value_twice_keeps_one_member() {
    let boxed = Object::new(String::new()).set_value(small(5)).set_value(small(6));
    assert_eq!(boxed.values.len(), 1);
    assert_eq!(boxed.values[0], ("__value__".to_string(), small(6)));
}

#[test]
fn members_are_read_along_a_dotted_path() {
    let line = Object::new("Line".to_string())
        .set_member("from".to_string(), Value::Object(point()))
        .unwrap()
        .set_member("width".to_string(), small(2))
        .unwrap();
    assert_eq!(line.get_member("width"), Ok(ValueType::Int(IntValue::Int8(2))));
    assert_eq!(line.get_member("from.x"), Ok(ValueType::Int(IntValue::Int8(3))));
    assert_eq!(line.get_member("from.y"), Ok(ValueType::Int(IntValue::Int8(4))));
    assert_eq!(line.get_member("from"), Err(VmError::Type));
    assert_eq!(line.get_member("to"), Err(VmError::Type));
    assert_eq!(line.get_member("to.x"), Err(VmError::Type));
    assert_eq!(line.get_member("width.x"), Err(VmError::Type));
    assert_eq!(line.get_member("from.z"), Err(VmError::Type));
}

#[test]
fn members_are_written_along_a_dotted_path() {
    let line = Object::new("Line".to_string())
        .set_member("from".to_string(), Value::Object(point()))
        .unwrap();
    let line = line.set_member("from.x".to_string(), small(9)).unwrap();
    assert_eq!(line.get_member("from.x"), Ok(ValueType::Int(IntValue::Int8(9))));
    assert_eq!(line.get_member("from.y"), Ok(ValueType::Int(IntValue::Int8(4))));
    let line = line.set_member("from.z".to_string(), small(1)).unwrap();
    assert_eq!(line.get_member("from.z"), Ok(ValueType::Int(IntValue::Int8(1))));
    assert_eq!(line.values.len(), 1);
    let line = line.set_member("from".to_string(), small(0)).unwrap();
    assert_eq!(line.get_member("from"), Ok(ValueType::Int(IntValue::Int8(0))));
    assert_eq!(
        line.set_member("from.x".to_string(), small(1)),
        Err(VmError::Type)
    );
    assert_eq!(
        Object::new("E".to_string()).set_member("a.b".to_string(), small(1)),
        Err(VmError::Type)
    );
}

#[test]
fn a_constructor_sets_the_members_in_the_order_of_the_declaration() {
    let p = point();
    assert_eq!(p.name, "Point");
    assert_eq!(
        p.values,
        vec![("x".to_string(), small(3)), ("y".to_string(), small(4))]
    );
}

#[test]
fn a_constructor_wants_one_argument_for_each_member() {
    let mut creator = ObjectCreator::new("Point".to_string());
    creator.add_member("x".to_string());
    creator.add_member("y".to_string());
    assert_eq!(creator.create(vec![small(3)]), Err(VmError::BuiltinArg));
    assert_eq!(
        creator.create(vec![small(3), small(4), small(5)]),
        Err(VmError::BuiltinArg)
    );
    assert_eq!(creator.create(vec![]), Err(VmError::BuiltinArg));
    let empty = ObjectCreator::new("Unit".to_string());
    assert_eq!(empty.create(vec![]), Ok(Object::new("Unit".to_string())));
}

#[test]
fn copies_are_equal_to_what_they_copy() {
    let v = list(vec![small(1), Value::Object(point()), text("x")]);
    assert_eq!(copy_value(&v), v);
    assert_eq!(v.clone(), v);
    assert_eq!(point().clone(), point());
}

#[test]
fn strings_join_and_compare() {
    let a = StringValue::new("ab".to_string());
    let b = StringValue::new("cd".to_string());
    assert_eq!(a.clone().add(b.clone()).value, "abcd");
    assert!(a.clone().eq(StringValue::new("ab".to_string())));
    assert!(!a.clone().eq(b.clone()));
    assert!(a.clone().ne(b));
    assert!(!a.clone().ne(StringValue::new("ab".to_string())));
    assert!(BoolValue::new(true).value);
    assert!(!BoolValue::new(false).value);
}
