use bare_script::builtins::StepOutcome;
use bare_script::error::ArithmeticError;
use bare_script::error::VmError;
use bare_script::instruction::Instruction;
use bare_script::instruction_compiler::InstructionCompiler;
use bare_script::int_value::IntValue;
use bare_script::operators::BinaryOp;
use bare_script::operators::FloatTask;
use bare_script::operators::Number;
use bare_script::value::BoolValue;
use bare_script::value::FloatValue;
use bare_script::value::Object;
use bare_script::value::ObjectCreator;
use bare_script::value::StringValue;
use bare_script::value::Value;
use bare_script::value::ValueType;
use bare_script::virtual_machine::RunStop;
use bare_script::virtual_machine::VirtualMachine;

fn small(v: i8) -> ValueType {
    ValueType::Int(IntValue::Int8(v))
}

fn count(v: i32) -> ValueType {
    ValueType::Int(IntValue::Int32(v))
}

fn text(s: &str) -> ValueType {
    ValueType::String(StringValue::new(s.to_string()))
}

fn boolean(b: bool) -> ValueType {
    ValueType::Bool(BoolValue::new(b))
}

fn machine(rom: Vec<Instruction>) -> VirtualMachine {
    let tables = InstructionCompiler::new();
    VirtualMachine::new(rom, tables.functions_locations, tables.class_creators)
}

fn run(rom: Vec<Instruction>) -> (VirtualMachine, String, RunStop) {
    let mut vm = machine(rom);
    let mut output = String::new();
    let stop = vm.run(10_000, &mut output);
    (vm, output, stop)
}

fn stack_after(rom: Vec<Instruction>) -> Vec<Value> {
    let (vm, _, stop) = run(rom);
    assert_eq!(stop, RunStop::Halted);
    vm.stack
}

fn failure(rom: Vec<Instruction>) -> VmError {
    match run(rom).2 {
        RunStop::Failed(e) => e,
        other => panic!("the run did not fail: {:?}", other),
    }
}

fn push(v: ValueType) -> Instruction {
    Instruction::Push(v)
}

#[test]
fn a_new_machine_starts_before_its_code() {
    let vm = machine(vec![Instruction::Pop, Instruction::Swap]);
    assert_eq!(vm.rom, vec![Instruction::Nop, Instruction::Pop, Instruction::Swap]);
    assert_eq!(vm.pc, 0);
    assert!(vm.stack.is_empty());
    assert!(vm.call_stack.is_empty());
    assert_eq!(vm.get_heap().len(), 0);
    assert!(!vm.halted());
}

#[test]
fn a_machine_without_code_halts_after_its_nop() {
    let mut vm = machine(vec![]);
    assert_eq!(vm.step(), Ok(StepOutcome::Continue));
    assert!(vm.halted());
    assert_eq!(vm.pc, 1);
    assert_eq!(vm.step(), Ok(StepOutcome::Halted));
    assert_eq!(vm.pc, 1);
}

#[test]
fn arithmetic_takes_two_operands_and_pushes_one() {
    assert_eq!(
        stack_after(vec![push(small(7)), push(small(2)), Instruction::Sub]),
        vec![Value::Value(small(5))]
    );
    assert_eq!(
        stack_after(vec![push(small(7)), push(small(2)), Instruction::Div]),
        vec![Value::Value(small(3))]
    );
    assert_eq!(
        stack_after(vec![push(small(7)), push(small(2)), Instruction::Mul]),
        vec![Value::Value(small(14))]
    );
    assert_eq!(
        stack_after(vec![push(small(127)), push(small(1)), Instruction::Add]),
        vec![Value::Value(ValueType::Int(IntValue::Int16(128)))]
    );
    assert_eq!(
        stack_after(vec![push(text("a")), push(text("b")), Instruction::Add]),
        vec![Value::Value(text("ab"))]
    );
}

#[test]
fn comparisons_push_booleans() {
    assert_eq!(
        stack_after(vec![push(small(1)), push(small(2)), Instruction::Lt]),
        vec![Value::Value(boolean(true))]
    );
    assert_eq!(
        stack_after(vec![push(small(1)), push(small(2)), Instruction::Gt]),
        vec![Value::Value(boolean(false))]
    );
    assert_eq!(
        stack_after(vec![push(small(2)), push(small(2)), Instruction::LtEq]),
        vec![Value::Value(boolean(true))]
    );
    assert_eq!(
        stack_after(vec![push(small(1)), push(small(2)), Instruction::GtEq]),
        vec![Value::Value(boolean(false))]
    );
    assert_eq!(
        stack_after(vec![push(small(2)), push(small(2)), Instruction::Eq]),
        vec![Value::Value(boolean(true))]
    );
    assert_eq!(
        stack_after(vec![push(small(2)), push(small(2)), Instruction::Neq]),
        vec![Value::Value(boolean(false))]
    );
}

#[test]
fn operations_fail_as_the_taxonomy_says() {
    assert_eq!(failure(vec![push(small(1)), Instruction::Add]), VmError::Stack);
    assert_eq!(failure(vec![Instruction::Eq]), VmError::Stack);
    assert_eq!(
        failure(vec![push(small(1)), push(text("a")), Instruction::Add]),
        VmError::Type
    );
    assert_eq!(
        failure(vec![push(small(1)), push(small(0)), Instruction::Div]),
        VmError::Arithmetic(ArithmeticError::DivisionByZero)
    );
    assert_eq!(
        failure(vec![
            push(ValueType::Int(IntValue::Int64(i64::MAX))),
            push(small(1)),
            Instruction::Add
        ]),
        VmError::Arithmetic(ArithmeticError::Overflow)
    );
}

#[test]
fn a_float_operation_is_left_to_the_driver() {
    let half = FloatValue::Float32(0x3f000000, "0.5".to_string());
    let mut vm = machine(vec![
        push(small(9)),
        push(small(1)),
        push(ValueType::Float(half.clone())),
        Instruction::Add,
    ]);
    let mut output = String::new();
    let stop = vm.run(100, &mut output);
    assert_eq!(
        stop,
        RunStop::Float(FloatTask {
            op: BinaryOp::Add,
            lhs: Number::Int(IntValue::Int8(1)),
            rhs: Number::Float(half),
            width: 4,
            widen: false
        })
    );
    assert_eq!(vm.stack, vec![Value::Value(small(9))]);
    assert!(vm.halted());
    let answer = ValueType::Float(FloatValue::Float32(0x3fc00000, "1.5".to_string()));
    vm.push_value(answer.clone());
    assert_eq!(vm.stack, vec![Value::Value(small(9)), Value::Value(answer)]);
    assert_eq!(vm.run(100, &mut output), RunStop::Halted);
}

#[test]
fn a_new_variable_holds_a_plain_value_in_a_record() {
    let (vm, _, stop) = run(vec![push(small(5)), Instruction::NewVariable("x".to_string())]);
    assert_eq!(stop, RunStop::Halted);
    assert!(vm.stack.is_empty());
    assert_eq!(vm.get_heap().len(), 1);
    assert_eq!(
        vm.get_heap().get("x"),
        Some(&Object {
            name: "".to_string(),
            values: vec![("__value__".to_string(), Value::Value(small(5)))]
        })
    );
}

#[test]
fn new_variable_then_load_gives_back_the_value() {
    assert_eq!(
        stack_after(vec![
            push(text("kept")),
            Instruction::NewVariable("x".to_string()),
            Instruction::Load("x".to_string())
        ]),
        vec![Value::Value(text("kept"))]
    );
    let mut point = ObjectCreator::new("Point".to_string());
    point.add_member("x".to_string());
    let record = point.create(vec![Value::Value(small(3))]).unwrap();
    let mut vm = machine(vec![
        Instruction::NewVariable("p".to_string()),
        Instruction::Load("p".to_string()),
    ]);
    vm.stack.push(Value::Object(record.clone()));
    let mut output = String::new();
    assert_eq!(vm.run(100, &mut output), RunStop::Halted);
    assert_eq!(vm.stack, vec![Value::Object(record)]);
}

#[test]
fn variables_fail_as_name_errors() {
    assert_eq!(failure(vec![Instruction::Load("x".to_string())]), VmError::Name);
    assert_eq!(
        failure(vec![push(small(1)), Instruction::Store("x".to_string())]),
        VmError::Name
    );
    assert_eq!(failure(vec![Instruction::Delete("x".to_string())]), VmError::Name);
    assert_eq!(
        failure(vec![
            push(small(1)),
            Instruction::NewVariable("x".to_string()),
            push(small(2)),
            Instruction::NewVariable("x".to_string())
        ]),
        VmError::Name
    );
    assert_eq!(failure(vec![Instruction::NewVariable("x".to_string())]), VmError::Stack);
    assert_eq!(
        failure(vec![
            push(small(1)),
            Instruction::NewVariable("x".to_string()),
            Instruction::Store("x".to_string())
        ]),
        VmError::Stack
    );
}

#[test]
fn store_replaces_the_value_of_a_variable() {
    assert_eq!(
        stack_after(vec![
            push(small(1)),
            Instruction::NewVariable("x".to_string()),
            push(small(2)),
            Instruction::Store("x".to_string()),
            Instruction::Load("x".to_string())
        ]),
        vec![Value::Value(small(2))]
    );
}

#[test]
fn delete_removes_a_variable() {
    let (vm, _, stop) = run(vec![
        push(small(5)),
        Instruction::NewVariable("x".to_string()),
        push(small(6)),
        Instruction::NewVariable("y".to_string()),
        Instruction::Delete("x".to_string()),
    ]);
    assert_eq!(stop, RunStop::Halted);
    assert_eq!(vm.get_heap().len(), 1);
    assert!(vm.get_heap().contains_key("y"));
    assert!(!vm.get_heap().contains_key("x"));
}

#[test]
fn new_variable_then_delete_leaves_the_variables_as_they_were() {
    let (vm, _, stop) = run(vec![
        push(small(5)),
        Instruction::NewVariable("kept".to_string()),
        push(small(6)),
        Instruction::NewVariable("a".to_string()),
        push(small(7)),
        Instruction::NewVariable("b".to_string()),
        Instruction::Delete("a".to_string()),
        Instruction::Delete("b".to_string()),
    ]);
    assert_eq!(stop, RunStop::Halted);
    assert_eq!(vm.get_heap().len(), 1);
    assert!(vm.get_heap().contains_key("kept"));
}

#[test]
fn members_are_loaded_and_stored_by_dotted_names() {
    let mut tables = InstructionCompiler::new();
    let mut point = ObjectCreator::new("Point".to_string());
    point.add_member("x".to_string());
    point.add_member("y".to_string());
    tables.class_creators.insert("Point".to_string(), point);
    let mut vm = VirtualMachine::new(
        vec![
            push(small(3)),
            push(small(4)),
            push(count(2)),
            Instruction::Call("Point".to_string()),
            Instruction::NewVariable("p".to_string()),
            Instruction::Load("p.x".to_string()),
            Instruction::Load("p.y".to_string()),
            Instruction::Add,
            push(small(9)),
            Instruction::Store("p.x".to_string()),
            Instruction::Load("p.x".to_string()),
        ],
        tables.functions_locations,
        tables.class_creators,
    );
    let mut output = String::new();
    assert_eq!(vm.run(100, &mut output), RunStop::Halted);
    assert_eq!(vm.stack, vec![Value::Value(small(7)), Value::Value(small(9))]);
}

#[test]
fn member_access_fails_as_a_type_error() {
    assert_eq!(
        failure(vec![
            push(small(1)),
            Instruction::NewVariable("x".to_string()),
            Instruction::Load("x.y".to_string())
        ]),
        VmError::Type
    );
    assert_eq!(
        failure(vec![
            push(small(1)),
            Instruction::NewVariable("x".to_string()),
            push(small(2)),
            Instruction::Store("x.y.z".to_string())
        ]),
        VmError::Type
    );
}

#[test]
fn a_constructor_wants_its_number_of_arguments() {
    let mut tables = InstructionCompiler::new();
    let mut point = ObjectCreator::new("Point".to_string());
    point.add_member("x".to_string());
    tables.class_creators.insert("Point".to_string(), point);
    let mut vm = VirtualMachine::new(
        vec![push(small(3)), push(small(4)), push(count(2)), Instruction::Call("Point".to_string())],
        tables.functions_locations,
        tables.class_creators,
    );
    let mut output = String::new();
    assert_eq!(vm.run(100, &mut output), RunStop::Failed(VmError::BuiltinArg));
}

#[test]
fn jumps_go_to_their_address() {
    assert_eq!(
        stack_after(vec![
            Instruction::Jump(3),
            push(small(1)),
            push(small(2)),
        ]),
        vec![Value::Value(small(2))]
    );
    assert_eq!(
        stack_after(vec![
            push(boolean(false)),
            Instruction::JumpIfFalse(4),
            push(small(1)),
            push(small(2)),
        ]),
        vec![Value::Value(small(2))]
    );
    assert_eq!(
        stack_after(vec![
            push(boolean(true)),
            Instruction::JumpIfFalse(4),
            push(small(1)),
            push(small(2)),
        ]),
        vec![Value::Value(small(1)), Value::Value(small(2))]
    );
    assert_eq!(
        stack_after(vec![
            push(boolean(true)),
            Instruction::JumpIfTrue(4),
            push(small(1)),
            push(small(2)),
        ]),
        vec![Value::Value(small(2))]
    );
    assert_eq!(
        stack_after(vec![
            push(boolean(false)),
            Instruction::JumpIfTrue(4),
            push(small(1)),
            push(small(2)),
        ]),
        vec![Value::Value(small(1)), Value::Value(small(2))]
    );
}

#[test]
fn a_jump_past_the_code_halts_the_machine() {
    assert_eq!(stack_after(vec![Instruction::Jump(3), push(small(1))]), vec![]);
    assert_eq!(stack_after(vec![Instruction::Jump(300), push(small(1))]), vec![]);
}

#[test]
fn jumps_fail_on_a_bad_condition_or_address() {
    assert_eq!(failure(vec![Instruction::JumpIfFalse(1)]), VmError::Stack);
    assert_eq!(failure(vec![push(small(1)), Instruction::JumpIfTrue(1)]), VmError::Type);
    assert_eq!(failure(vec![Instruction::Jump(0)]), VmError::Address);
    assert_eq!(
        failure(vec![push(boolean(true)), Instruction::JumpIfTrue(0)]),
        VmError::Address
    );
    assert_eq!(
        stack_after(vec![push(boolean(false)), Instruction::JumpIfTrue(0)]),
        vec![]
    );
}

#[test]
fn a_call_remembers_where_it_came_from_and_return_goes_back() {
    // 1: jump over the function; 2: the function pushes 7 and returns;
    // 4: the call; 5: what follows the call.
    let mut tables = InstructionCompiler::new();
    tables.functions_locations.insert("f".to_string(), 2);
    let mut vm = VirtualMachine::new(
        vec![
            Instruction::Jump(4),
            push(small(7)),
            Instruction::Return,
            Instruction::Call("f".to_string()),
            push(small(8)),
        ],
        tables.functions_locations,
        tables.class_creators,
    );
    assert_eq!(vm.step(), Ok(StepOutcome::Continue)); // Nop
    assert_eq!(vm.step(), Ok(StepOutcome::Continue)); // Jump
    assert_eq!(vm.pc, 4);
    assert_eq!(vm.step(), Ok(StepOutcome::Continue)); // Call
    assert_eq!(vm.call_stack, vec![4]);
    assert_eq!(vm.pc, 2);
    assert_eq!(vm.step(), Ok(StepOutcome::Continue)); // Push 7
    assert_eq!(vm.step(), Ok(StepOutcome::Continue)); // Return
    assert_eq!(vm.call_stack, Vec::<usize>::new());
    assert_eq!(vm.pc, 5);
    assert_eq!(vm.step(), Ok(StepOutcome::Continue)); // Push 8
    assert!(vm.halted());
    assert_eq!(vm.stack, vec![Value::Value(small(7)), Value::Value(small(8))]);
}

#[test]
fn calls_and_returns_fail_on_what_is_missing() {
    assert_eq!(failure(vec![Instruction::Return]), VmError::Stack);
    assert_eq!(failure(vec![Instruction::Call("nobody".to_string())]), VmError::Name);
    let mut tables = InstructionCompiler::new();
    tables.functions_locations.insert("f".to_string(), 0);
    let mut vm = VirtualMachine::new(
        vec![Instruction::Call("f".to_string())],
        tables.functions_locations,
        tables.class_creators,
    );
    let mut output = String::new();
    assert_eq!(vm.run(100, &mut output), RunStop::Failed(VmError::Address));
}

#[test]
fn built_ins_come_before_classes_and_functions() {
    let mut tables = InstructionCompiler::new();
    tables.functions_locations.insert("print".to_string(), 1);
    tables
        .class_creators
        .insert("print".to_string(), ObjectCreator::new("print".to_string()));
    let mut vm = VirtualMachine::new(
        vec![push(small(1)), push(count(1)), Instruction::Call("print".to_string())],
        tables.functions_locations,
        tables.class_creators,
    );
    let mut output = String::new();
    assert_eq!(vm.run(100, &mut output), RunStop::Halted);
    assert_eq!(output, "1");
    assert!(vm.stack.is_empty());
}

#[test]
fn the_stack_instructions_rearrange_the_stack() {
    assert_eq!(
        stack_after(vec![push(small(1)), push(small(2)), Instruction::Pop]),
        vec![Value::Value(small(1))]
    );
    assert_eq!(
        stack_after(vec![push(small(1)), Instruction::Clone]),
        vec![Value::Value(small(1)), Value::Value(small(1))]
    );
    assert_eq!(
        stack_after(vec![push(small(1)), push(small(2)), Instruction::Swap]),
        vec![Value::Value(small(2)), Value::Value(small(1))]
    );
    assert_eq!(
        stack_after(vec![push(small(0)), push(small(1)), push(small(2)), push(small(3)), Instruction::Rotate]),
        vec![
            Value::Value(small(0)),
            Value::Value(small(2)),
            Value::Value(small(1)),
            Value::Value(small(3))
        ]
    );
    assert_eq!(
        stack_after(vec![push(small(1)), push(small(2)), push(small(3)), Instruction::MoveBack(2)]),
        vec![Value::Value(small(3)), Value::Value(small(1)), Value::Value(small(2))]
    );
    assert_eq!(
        stack_after(vec![push(small(1)), push(small(2)), push(small(3)), Instruction::MoveBack(0)]),
        vec![Value::Value(small(1)), Value::Value(small(2)), Value::Value(small(3))]
    );
    assert_eq!(stack_after(vec![push(small(1)), Instruction::Nop]), vec![Value::Value(small(1))]);
}

#[test]
fn the_stack_instructions_fail_on_too_short_a_stack() {
    assert_eq!(failure(vec![Instruction::Pop]), VmError::Stack);
    assert_eq!(failure(vec![Instruction::Clone]), VmError::Stack);
    assert_eq!(failure(vec![push(small(1)), Instruction::Swap]), VmError::Stack);
    assert_eq!(
        failure(vec![push(small(1)), push(small(2)), Instruction::Rotate]),
        VmError::Stack
    );
    assert_eq!(
        failure(vec![push(small(1)), push(small(2)), Instruction::MoveBack(2)]),
        VmError::Stack
    );
    assert_eq!(failure(vec![Instruction::MoveBack(0)]), VmError::Stack);
}

#[test]
fn a_run_stops_when_its_steps_are_used_up() {
    // 1: jump to 1, forever.
    let mut vm = machine(vec![Instruction::Jump(1)]);
    let mut output = String::new();
    assert_eq!(vm.run(1000, &mut output), RunStop::OutOfSteps);
    assert_eq!(vm.run(0, &mut output), RunStop::OutOfSteps);
    assert!(!vm.halted());
}

#[test]
fn a_run_gathers_what_the_program_writes() {
    let (vm, output, stop) = run(vec![
        push(text("a")),
        push(count(1)),
        Instruction::Call("print".to_string()),
        push(small(1)),
        push(small(2)),
        push(count(2)),
        Instruction::Call("println".to_string()),
        push(count(0)),
        Instruction::Call("println".to_string()),
    ]);
    assert_eq!(stop, RunStop::Halted);
    assert_eq!(output, "a1 2\n\n");
    assert!(vm.stack.is_empty());
}

#[test]
fn a_failed_assertion_stops_the_run_with_its_message() {
    let (_, output, stop) = run(vec![
        push(text("before")),
        push(count(1)),
        Instruction::Call("print".to_string()),
        push(boolean(false)),
        push(text("it"))
        ,
        push(text("failed")),
        push(count(3)),
        Instruction::Call("assert".to_string()),
        push(text("after")),
        push(count(1)),
        Instruction::Call("print".to_string()),
    ]);
    assert_eq!(stop, RunStop::Failed(VmError::AssertionFailure("it failed".to_string())));
    assert_eq!(output, "before");
}
