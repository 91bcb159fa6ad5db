use bare_script::error::CompileError;
use bare_script::eval_parser::EvalValue;
use bare_script::eval_parser::ExprAst;
use bare_script::instruction::Instruction;
use bare_script::instruction_compiler::FloatLiteral;
use bare_script::instruction_compiler::InstructionCompiler;
use bare_script::instruction_compiler::JumpKind;
use bare_script::instruction_compiler::Scope;
use bare_script::instruction_compiler::Translation;
use bare_script::int_value::IntValue;
use bare_script::labels::compile;
use bare_script::labels::find_labels;
use bare_script::labels::resolve_with;
use bare_script::parser::Statement;
use bare_script::value::BoolValue;
use bare_script::value::FloatValue;
use bare_script::value::ObjectCreator;
use bare_script::value::StringValue;
use bare_script::value::ValueType;
use bare_script::virtual_machine::RunStop;
use bare_script::virtual_machine::VirtualMachine;

fn num(text: &str) -> ExprAst {
    ExprAst::Value { val: EvalValue::IntegerLiteral { val: text.to_string() } }
}

fn var(name: &str) -> ExprAst {
    ExprAst::Value { val: EvalValue::Reference { val: name.to_string() } }
}

fn truth(b: bool) -> ExprAst {
    ExprAst::Value { val: EvalValue::BooleanLiteral { val: b } }
}

fn add(lhs: ExprAst, rhs: ExprAst) -> ExprAst {
    ExprAst::Addition { lhs: Box::new(lhs), rhs: Box::new(rhs) }
}

fn push8(v: i8) -> Instruction {
    Instruction::Push(ValueType::Int(IntValue::Int8(v)))
}

fn push_count(v: i32) -> Instruction {
    Instruction::Push(ValueType::Int(IntValue::Int32(v)))
}

fn call(name: &str) -> Instruction {
    Instruction::Call(name.to_string())
}

fn assign(name: &str, value: ExprAst) -> Statement {
    Statement::VariableAssignment { name: name.to_string(), value }
}

fn lower(expr: &ExprAst) -> Result<Vec<Instruction>, CompileError> {
    InstructionCompiler::new().compile_expr_ast(expr, &vec![])
}

fn program(statements: Vec<Statement>) -> Vec<Instruction> {
    compile(&statements, &vec![]).unwrap().0
}

fn top() -> Scope {
    Scope::outermost()
}

#[test]
fn integer_literals_take_the_narrowest_width() {
    assert_eq!(lower(&num("0")), Ok(vec![push8(0)]));
    assert_eq!(lower(&num("127")), Ok(vec![push8(127)]));
    assert_eq!(lower(&num("-128")), Ok(vec![push8(-128)]));
    assert_eq!(
        lower(&num("128")),
        Ok(vec![Instruction::Push(ValueType::Int(IntValue::Int16(128)))])
    );
    assert_eq!(
        lower(&num("32768")),
        Ok(vec![Instruction::Push(ValueType::Int(IntValue::Int32(32768)))])
    );
    assert_eq!(
        lower(&num("2147483648")),
        Ok(vec![Instruction::Push(ValueType::Int(IntValue::Int64(2147483648)))])
    );
    assert_eq!(
        lower(&num("9223372036854775807")),
        Ok(vec![Instruction::Push(ValueType::Int(IntValue::Int64(i64::MAX)))])
    );
}

#[test]
fn an_integer_literal_that_does_not_fit_is_an_error() {
    assert_eq!(lower(&num("9223372036854775808")), Err(CompileError::IntegerLiteral));
    assert_eq!(lower(&num("12x")), Err(CompileError::IntegerLiteral));
    assert_eq!(lower(&num("")), Err(CompileError::IntegerLiteral));
}

#[test]
fn float_literals_come_from_the_table() {
    let literal = ExprAst::Value { val: EvalValue::FloatLiteral { val: "1.50".to_string() } };
    let float = FloatValue::Float32(0x3fc00000, "1.5".to_string());
    let table = vec![
        FloatLiteral { text: "2.5".to_string(), value: FloatValue::Float64(1, "2.5".to_string()) },
        FloatLiteral { text: "1.50".to_string(), value: float.clone() },
    ];
    assert_eq!(
        InstructionCompiler::new().compile_expr_ast(&literal, &table),
        Ok(vec![Instruction::Push(ValueType::Float(float))])
    );
    assert_eq!(lower(&literal), Err(CompileError::FloatLiteral));
}

#[test]
fn other_leaves_are_pushed_or_loaded() {
    assert_eq!(
        lower(&truth(true)),
        Ok(vec![Instruction::Push(ValueType::Bool(BoolValue::new(true)))])
    );
    assert_eq!(
        lower(&ExprAst::Value { val: EvalValue::Stringliteral { val: "hi".to_string() } }),
        Ok(vec![Instruction::Push(ValueType::String(StringValue::new("hi".to_string())))])
    );
    assert_eq!(lower(&var("a.b")), Ok(vec![Instruction::Load("a.b".to_string())]));
}

#[test]
fn an_operation_evaluates_left_then_right_then_applies() {
    let expr = ExprAst::Subtraction {
        lhs: Box::new(num("1")),
        rhs: Box::new(ExprAst::Multiplication { lhs: Box::new(num("2")), rhs: Box::new(var("x")) }),
    };
    assert_eq!(
        lower(&expr),
        Ok(vec![
            push8(1),
            push8(2),
            Instruction::Load("x".to_string()),
            Instruction::Mul,
            Instruction::Sub
        ])
    );
    let all = [
        (ExprAst::Addition { lhs: Box::new(num("1")), rhs: Box::new(num("2")) }, Instruction::Add),
        (ExprAst::Division { lhs: Box::new(num("1")), rhs: Box::new(num("2")) }, Instruction::Div),
        (ExprAst::Eq { lhs: Box::new(num("1")), rhs: Box::new(num("2")) }, Instruction::Eq),
        (ExprAst::Neq { lhs: Box::new(num("1")), rhs: Box::new(num("2")) }, Instruction::Neq),
        (ExprAst::GtEq { lhs: Box::new(num("1")), rhs: Box::new(num("2")) }, Instruction::GtEq),
        (ExprAst::LtEq { lhs: Box::new(num("1")), rhs: Box::new(num("2")) }, Instruction::LtEq),
        (ExprAst::Gt { lhs: Box::new(num("1")), rhs: Box::new(num("2")) }, Instruction::Gt),
        (ExprAst::Lt { lhs: Box::new(num("1")), rhs: Box::new(num("2")) }, Instruction::Lt),
    ];
    for (expr, instruction) in all {
        assert_eq!(lower(&expr), Ok(vec![push8(1), push8(2), instruction]));
    }
}

#[test]
fn a_list_is_built_by_the_push_builtin() {
    let list = ExprAst::Value { val: EvalValue::List { val: vec![num("1"), var("x")] } };
    assert_eq!(
        lower(&list),
        Ok(vec![
            Instruction::Push(ValueType::Vector(vec![])),
            push8(1),
            push_count(2),
            call("push"),
            Instruction::Load("x".to_string()),
            push_count(2),
            call("push"),
        ])
    );
    let empty = ExprAst::Value { val: EvalValue::List { val: vec![] } };
    assert_eq!(lower(&empty), Ok(vec![Instruction::Push(ValueType::Vector(vec![]))]));
}

#[test]
fn a_call_pushes_its_arguments_and_their_number() {
    let expr = ExprAst::FunctionCall { name: "f".to_string(), args: vec![num("1"), num("2"), var("x")] };
    assert_eq!(
        lower(&expr),
        Ok(vec![
            push8(1),
            push8(2),
            Instruction::Load("x".to_string()),
            push_count(3),
            call("f")
        ])
    );
    let none = ExprAst::FunctionCall { name: "g".to_string(), args: vec![] };
    assert_eq!(lower(&none), Ok(vec![push_count(0), call("g")]));
}

#[test]
fn the_first_error_of_an_expression_wins() {
    let expr = add(num("x"), ExprAst::Value { val: EvalValue::FloatLiteral { val: "1.0".to_string() } });
    assert_eq!(lower(&expr), Err(CompileError::IntegerLiteral));
    let expr = add(ExprAst::Value { val: EvalValue::FloatLiteral { val: "1.0".to_string() } }, num("x"));
    assert_eq!(lower(&expr), Err(CompileError::FloatLiteral));
}

#[test]
fn an_assignment_makes_a_variable_that_the_block_deletes() {
    assert_eq!(
        program(vec![assign("x", num("1")), assign("y", var("x"))]),
        vec![
            push8(1),
            Instruction::NewVariable("x".to_string()),
            Instruction::Load("x".to_string()),
            Instruction::NewVariable("y".to_string()),
            Instruction::Delete("x".to_string()),
            Instruction::Delete("y".to_string()),
        ]
    );
}

#[test]
fn a_multiple_assignment_makes_a_variable_for_each_name() {
    let statement = Statement::VariableMultiAssignment {
        variables: vec!["a".to_string(), "b".to_string()],
        value: ExprAst::FunctionCall { name: "two".to_string(), args: vec![] },
    };
    assert_eq!(
        program(vec![statement]),
        vec![
            push_count(0),
            call("two"),
            Instruction::NewVariable("a".to_string()),
            Instruction::NewVariable("b".to_string()),
            Instruction::Delete("a".to_string()),
            Instruction::Delete("b".to_string()),
        ]
    );
}

#[test]
fn a_reassignment_stores_and_a_call_statement_calls() {
    assert_eq!(
        program(vec![
            Statement::VariableReassignment { name: "p.x".to_string(), value: num("2") },
            Statement::FunctionCall { name: "println".to_string(), args: vec![num("7")] },
        ]),
        vec![
            push8(2),
            Instruction::Store("p.x".to_string()),
            push8(7),
            push_count(1),
            call("println"),
        ]
    );
}

#[test]
fn a_conditional_jumps_over_the_bodies_that_do_not_apply() {
    let statement = Statement::Conditional {
        condition: truth(true),
        body: vec![Statement::VariableReassignment { name: "x".to_string(), value: num("1") }],
        else_if_conditions: vec![(
            truth(false),
            vec![Statement::VariableReassignment { name: "x".to_string(), value: num("2") }],
        )],
        else_body: Some(vec![Statement::VariableReassignment {
            name: "x".to_string(),
            value: num("3"),
        }]),
    };
    let mut compiler = InstructionCompiler::new();
    let code = compiler.compile_block(&vec![statement], &top(), &vec![]).unwrap();
    let store = |v: i8| {
        vec![
            Translation::Instruction(push8(v)),
            Translation::Instruction(Instruction::Store("x".to_string())),
        ]
    };
    let mut expected = vec![
        Translation::Instruction(Instruction::Push(ValueType::Bool(BoolValue::new(true)))),
        Translation::Jump(JumpKind::IfFalse, 1),
    ];
    expected.extend(store(1));
    expected.push(Translation::Jump(JumpKind::Always, 0));
    expected.push(Translation::Label(1));
    expected.push(Translation::Instruction(Instruction::Push(ValueType::Bool(BoolValue::new(
        false,
    )))));
    expected.push(Translation::Jump(JumpKind::IfFalse, 2));
    expected.extend(store(2));
    expected.push(Translation::Jump(JumpKind::Always, 0));
    expected.push(Translation::Label(2));
    expected.extend(store(3));
    expected.push(Translation::Label(0));
    assert_eq!(code, expected);
    assert_eq!(compiler.label_count, 3);
    let instructions = compiler.compile_translation(code).unwrap();
    assert_eq!(
        instructions,
        vec![
            Instruction::Push(ValueType::Bool(BoolValue::new(true))),
            Instruction::JumpIfFalse(6),
            push8(1),
            Instruction::Store("x".to_string()),
            Instruction::Jump(13),
            Instruction::Push(ValueType::Bool(BoolValue::new(false))),
            Instruction::JumpIfFalse(11),
            push8(2),
            Instruction::Store("x".to_string()),
            Instruction::Jump(13),
            push8(3),
            Instruction::Store("x".to_string()),
        ]
    );
}

#[test]
fn a_loop_jumps_back_to_its_test() {
    let statement = Statement::WhileLoop {
        condition: var("go"),
        body: vec![Statement::Continue, Statement::Break],
    };
    assert_eq!(
        program(vec![statement]),
        vec![
            Instruction::Load("go".to_string()),
            Instruction::JumpIfFalse(6),
            Instruction::Jump(1),
            Instruction::Jump(6),
            Instruction::Jump(1),
        ]
    );
}

#[test]
fn break_and_continue_reach_the_loop_through_a_conditional() {
    let statement = Statement::WhileLoop {
        condition: var("go"),
        body: vec![Statement::Conditional {
            condition: var("done"),
            body: vec![Statement::Break],
            else_if_conditions: vec![],
            else_body: Some(vec![Statement::Continue]),
        }],
    };
    assert_eq!(
        program(vec![statement]),
        vec![
            Instruction::Load("go".to_string()),
            Instruction::JumpIfFalse(9),
            Instruction::Load("done".to_string()),
            Instruction::JumpIfFalse(7),
            Instruction::Jump(9),
            Instruction::Jump(8),
            Instruction::Jump(1),
            Instruction::Jump(1),
        ]
    );
}

#[test]
fn break_continue_and_return_need_something_around_them() {
    assert_eq!(
        compile(&vec![Statement::Break], &vec![]).err().unwrap(),
        CompileError::BreakOutsideLoop
    );
    assert_eq!(
        compile(&vec![Statement::Continue], &vec![]).err().unwrap(),
        CompileError::ContinueOutsideLoop
    );
    assert_eq!(
        compile(&vec![Statement::Return { returns: vec![] }], &vec![]).err().unwrap(),
        CompileError::ReturnOutsideFunction
    );
    let in_function = Statement::FunctionDefinition {
        name: "f".to_string(),
        args: vec![],
        body: vec![Statement::Break],
    };
    assert_eq!(
        compile(&vec![Statement::WhileLoop { condition: truth(true), body: vec![in_function] }], &vec![])
            .err().unwrap(),
        CompileError::BreakOutsideLoop
    );
    let in_loop = Statement::WhileLoop {
        condition: truth(true),
        body: vec![Statement::Return { returns: vec![] }],
    };
    assert_eq!(
        compile(&vec![in_loop], &vec![]).err().unwrap(),
        CompileError::ReturnOutsideFunction
    );
}

#[test]
fn a_for_loop_is_not_lowered() {
    let statement = Statement::ForLoop {
        var_name: "i".to_string(),
        start: num("0"),
        end: num("3"),
        body: vec![],
    };
    assert_eq!(compile(&vec![statement], &vec![]).err().unwrap(), CompileError::Unsupported);
}

#[test]
fn a_function_checks_its_arguments_and_deletes_them_before_it_returns() {
    let definition = Statement::FunctionDefinition {
        name: "f".to_string(),
        args: vec!["a".to_string(), "b".to_string()],
        body: vec![
            Statement::Conditional {
                condition: var("a"),
                body: vec![Statement::Return { returns: vec![num("1")] }],
                else_if_conditions: vec![],
                else_body: None,
            },
            Statement::Return { returns: vec![var("b")] },
        ],
    };
    let (instructions, functions, classes) = compile(&vec![definition], &vec![]).unwrap();
    assert_eq!(
        instructions,
        vec![
            Instruction::Jump(20),
            push_count(2),
            Instruction::Eq,
            Instruction::Push(ValueType::String(StringValue::new(
                "Error: Expected 2 arguments".to_string()
            ))),
            push_count(2),
            call("assert"),
            Instruction::NewVariable("b".to_string()),
            Instruction::NewVariable("a".to_string()),
            Instruction::Load("a".to_string()),
            Instruction::JumpIfFalse(16),
            push8(1),
            Instruction::Delete("a".to_string()),
            Instruction::Delete("b".to_string()),
            Instruction::Return,
            Instruction::Jump(16),
            Instruction::Load("b".to_string()),
            Instruction::Delete("a".to_string()),
            Instruction::Delete("b".to_string()),
            Instruction::Return,
        ]
    );
    assert_eq!(functions.get("f"), Some(&2));
    assert_eq!(functions.len(), 1);
    assert_eq!(classes.len(), 0);
}

#[test]
fn names_of_functions_and_classes_do_not_collide() {
    let function = |name: &str| Statement::FunctionDefinition {
        name: name.to_string(),
        args: vec![],
        body: vec![],
    };
    let class = |name: &str| Statement::ClassDeclaration {
        class_name: name.to_string(),
        members: vec!["m".to_string()],
    };
    assert_eq!(
        compile(&vec![function("f"), function("f")], &vec![]).err().unwrap(),
        CompileError::DuplicateFunction
    );
    assert_eq!(
        compile(&vec![class("C"), function("C")], &vec![]).err().unwrap(),
        CompileError::FunctionNamedAsClass
    );
    assert_eq!(
        compile(&vec![class("C"), class("C")], &vec![]).err().unwrap(),
        CompileError::DuplicateClass
    );
    assert_eq!(
        compile(&vec![function("f"), class("f")], &vec![]).err().unwrap(),
        CompileError::ClassNamedAsFunction
    );
    assert!(compile(&vec![function("f"), function("g"), class("C"), class("D")], &vec![]).is_ok());
}

#[test]
fn a_class_declaration_emits_no_code() {
    let class = Statement::ClassDeclaration {
        class_name: "Point".to_string(),
        members: vec!["x".to_string(), "y".to_string()],
    };
    let (instructions, functions, classes) = compile(&vec![class], &vec![]).unwrap();
    assert!(instructions.is_empty());
    assert_eq!(functions.len(), 0);
    let mut expected = ObjectCreator::new("Point".to_string());
    expected.add_member("x".to_string());
    expected.add_member("y".to_string());
    assert_eq!(classes.get("Point"), Some(&expected));
}

#[test]
fn labels_get_the_address_of_the_instruction_after_them() {
    let code = vec![
        Translation::Label(7),
        Translation::Instruction(Instruction::Nop),
        Translation::Label(8),
        Translation::Label(9),
        Translation::Jump(JumpKind::IfTrue, 9),
        Translation::Jump(JumpKind::IfFalse, 7),
        Translation::Jump(JumpKind::Always, 10),
        Translation::Label(10),
    ];
    let labels = find_labels(&code);
    assert_eq!(labels.get(&7), Some(&1));
    assert_eq!(labels.get(&8), Some(&2));
    assert_eq!(labels.get(&9), Some(&2));
    assert_eq!(labels.get(&10), Some(&5));
    assert_eq!(labels.len(), 4);
    assert_eq!(
        resolve_with(code, &labels),
        Ok(vec![
            Instruction::Nop,
            Instruction::JumpIfTrue(2),
            Instruction::JumpIfFalse(1),
            Instruction::Jump(5),
        ])
    );
}

#[test]
fn a_jump_to_a_label_that_stands_nowhere_is_an_error() {
    let code = vec![Translation::Label(1), Translation::Jump(JumpKind::Always, 2)];
    assert_eq!(
        InstructionCompiler::new().compile_translation(code),
        Err(CompileError::UnresolvedLabel)
    );
}

#[test]
fn every_jump_of_a_program_stays_within_its_code() {
    let body = vec![
        Statement::Conditional {
            condition: var("a"),
            body: vec![Statement::Continue],
            else_if_conditions: vec![(var("b"), vec![Statement::Break])],
            else_body: None,
        },
        Statement::FunctionCall { name: "print".to_string(), args: vec![var("a")] },
    ];
    let statements = vec![
        Statement::FunctionDefinition {
            name: "f".to_string(),
            args: vec!["a".to_string()],
            body: vec![Statement::Return { returns: vec![var("a")] }],
        },
        Statement::WhileLoop { condition: var("go"), body },
        assign("last", num("1")),
    ];
    let (instructions, functions, _) = compile(&statements, &vec![]).unwrap();
    let rom_len = instructions.len() + 1;
    let mut jumps = 0;
    for instruction in &instructions {
        match instruction {
            Instruction::Jump(a) | Instruction::JumpIfFalse(a) | Instruction::JumpIfTrue(a) => {
                jumps += 1;
                assert!(1 <= *a && *a < rom_len, "address {} of {}", a, rom_len);
            }
            _ => {}
        }
    }
    assert_eq!(jumps, 9);
    let entry = *functions.get("f").unwrap();
    assert!(1 <= entry && entry < rom_len);
}

fn make(name: &str, value: &str) -> Statement {
    Statement::VariableAssignment { name: name.to_string(), value: num(value) }
}

fn delete(name: &str) -> Instruction {
    Instruction::Delete(name.to_string())
}

fn new_variable(name: &str) -> Instruction {
    Instruction::NewVariable(name.to_string())
}

#[test]
fn break_deletes_the_variables_of_the_loop_before_it_jumps() {
    let statement = Statement::WhileLoop {
        condition: truth(true),
        body: vec![make("x", "1"), Statement::Break],
    };
    assert_eq!(
        program(vec![statement]),
        vec![
            Instruction::Push(ValueType::Bool(BoolValue::new(true))),
            Instruction::JumpIfFalse(9),
            push8(1),
            new_variable("x"),
            delete("x"),
            Instruction::Jump(9),
            delete("x"),
            Instruction::Jump(1),
        ]
    );
}

#[test]
fn continue_deletes_what_the_blocks_inside_the_loop_have_introduced() {
    // while go { a = 1; if a { b = 2; continue; c = 3 } }
    let statement = Statement::WhileLoop {
        condition: var("go"),
        body: vec![
            make("a", "1"),
            Statement::Conditional {
                condition: var("a"),
                body: vec![make("b", "2"), Statement::Continue, make("c", "3")],
                else_if_conditions: vec![],
                else_body: None,
            },
        ],
    };
    assert_eq!(
        program(vec![statement]),
        vec![
            Instruction::Load("go".to_string()),
            Instruction::JumpIfFalse(19),
            push8(1),
            new_variable("a"),
            Instruction::Load("a".to_string()),
            Instruction::JumpIfFalse(17),
            push8(2),
            new_variable("b"),
            delete("a"),
            delete("b"),
            Instruction::Jump(1),
            push8(3),
            new_variable("c"),
            delete("b"),
            delete("c"),
            Instruction::Jump(17),
            delete("a"),
            Instruction::Jump(1),
        ]
    );
}

#[test]
fn break_leaves_the_variables_outside_its_loop_alone() {
    // x = 1; while go { y = 2; while go { z = 3; break } }
    let inner = Statement::WhileLoop {
        condition: var("go"),
        body: vec![make("z", "3"), Statement::Break],
    };
    let outer = Statement::WhileLoop { condition: var("go"), body: vec![make("y", "2"), inner] };
    assert_eq!(
        program(vec![make("x", "1"), outer]),
        vec![
            push8(1),
            new_variable("x"),
            Instruction::Load("go".to_string()),
            Instruction::JumpIfFalse(17),
            push8(2),
            new_variable("y"),
            Instruction::Load("go".to_string()),
            Instruction::JumpIfFalse(15),
            push8(3),
            new_variable("z"),
            delete("z"),
            Instruction::Jump(15),
            delete("z"),
            Instruction::Jump(7),
            delete("y"),
            Instruction::Jump(3),
            delete("x"),
        ]
    );
}

#[test]
fn return_deletes_the_variables_of_the_function_and_then_its_parameters() {
    // fn f(p) { a = 1; while p { b = 2; return b }; return a }
    let definition = Statement::FunctionDefinition {
        name: "f".to_string(),
        args: vec!["p".to_string()],
        body: vec![
            make("a", "1"),
            Statement::WhileLoop {
                condition: var("p"),
                body: vec![make("b", "2"), Statement::Return { returns: vec![var("b")] }],
            },
            Statement::Return { returns: vec![var("a")] },
        ],
    };
    let instructions = program(vec![definition]);
    assert_eq!(
        instructions[6..].to_vec(),
        vec![
            new_variable("p"),
            push8(1),
            new_variable("a"),
            Instruction::Load("p".to_string()),
            Instruction::JumpIfFalse(21),
            push8(2),
            new_variable("b"),
            Instruction::Load("b".to_string()),
            delete("a"),
            delete("b"),
            delete("p"),
            Instruction::Return,
            delete("b"),
            Instruction::Jump(10),
            Instruction::Load("a".to_string()),
            delete("a"),
            delete("p"),
            Instruction::Return,
            delete("a"),
        ]
    );
}

#[test]
fn a_compiler_goes_on_from_the_labels_it_has_given_out() {
    let statement = || Statement::WhileLoop { condition: truth(true), body: vec![] };
    let mut compiler = InstructionCompiler::new();
    assert_eq!(compiler.run(&vec![statement()], &vec![]), Ok(()));
    assert_eq!(compiler.label_count, 2);
    assert_eq!(compiler.run(&vec![statement()], &vec![]), Ok(()));
    assert_eq!(compiler.label_count, 4);
    assert_eq!(compiler.instructions, program(vec![statement()]));
}

#[test]
fn a_compiler_that_holds_a_function_of_other_code_cannot_place_it() {
    let definition = Statement::FunctionDefinition {
        name: "f".to_string(),
        args: vec![],
        body: vec![Statement::Return { returns: vec![] }],
    };
    let mut compiler = InstructionCompiler::new();
    assert_eq!(compiler.run(&vec![definition], &vec![]), Ok(()));
    assert_eq!(compiler.functions_locations.get("f"), Some(&2));
    assert_eq!(compiler.run(&vec![], &vec![]), Err(CompileError::UnresolvedLabel));
}

#[test]
fn a_function_that_does_not_return_keeps_its_parameter() {
    // c = true
    // fn f(a) {}
    // if c { c = false; f(1) }
    let program = vec![
        assign("c", truth(true)),
        Statement::FunctionDefinition { name: "f".to_string(), args: vec!["a".to_string()], body: vec![] },
        Statement::Conditional {
            condition: var("c"),
            body: vec![
                Statement::VariableReassignment { name: "c".to_string(), value: truth(false) },
                Statement::FunctionCall { name: "f".to_string(), args: vec![num("1")] },
            ],
            else_if_conditions: vec![],
            else_body: None,
        },
    ];
    let (instructions, functions, classes) = compile(&program, &vec![]).unwrap();
    let mut vm = VirtualMachine::new(instructions, functions, classes);
    let mut output = String::new();
    assert_eq!(vm.run(1000, &mut output), RunStop::Halted);
    assert_eq!(vm.get_heap().len(), 1);
    assert!(vm.get_heap().get("a").is_some());
    assert_eq!(vm.call_stack.len(), 1);
}
