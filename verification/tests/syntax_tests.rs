use bare_script::copy::copy_block;
use bare_script::copy::copy_statement;
use bare_script::eval_parser::EvalValue;
use bare_script::eval_parser::ExprAst;
use bare_script::expr_text::copy_expr;
use bare_script::float_literals::float_literals;
use bare_script::instruction::Instruction;
use bare_script::instruction_compiler::InstructionCompiler;
use bare_script::int_value::IntValue;
use bare_script::parser::Statement;
use bare_script::value::StringValue;
use bare_script::value::ValueType;
use bare_script::virtual_machine::RunStop;
use bare_script::virtual_machine::VirtualMachine;
use vstd::hash_map::StringHashMap;

fn num(text: &str) -> ExprAst {
    ExprAst::Value { val: EvalValue::IntegerLiteral { val: text.to_string() } }
}

fn fraction(text: &str) -> ExprAst {
    ExprAst::Value { val: EvalValue::FloatLiteral { val: text.to_string() } }
}

fn var(text: &str) -> ExprAst {
    ExprAst::Value { val: EvalValue::Reference { val: text.to_string() } }
}

fn add(lhs: ExprAst, rhs: ExprAst) -> ExprAst {
    ExprAst::Addition { lhs: Box::new(lhs), rhs: Box::new(rhs) }
}

#[test]
fn leaves_print_as_their_text() {
    assert_eq!(num("007").to_string(), "007");
    assert_eq!(fraction("1.50").to_string(), "1.50");
    assert_eq!(var("a.b").to_string(), "a.b");
    assert_eq!(EvalValue::Stringliteral { val: "hi".to_string() }.to_string(), "hi");
    assert_eq!(EvalValue::BooleanLiteral { val: true }.to_string(), "true");
    assert_eq!(EvalValue::BooleanLiteral { val: false }.to_string(), "false");
}

#[test]
fn operations_print_with_their_operator_between() {
    let pair = || (Box::new(var("a")), Box::new(num("1")));
    let (lhs, rhs) = pair();
    assert_eq!(ExprAst::Addition { lhs, rhs }.to_string(), "a + 1");
    let (lhs, rhs) = pair();
    assert_eq!(ExprAst::Subtraction { lhs, rhs }.to_string(), "a - 1");
    let (lhs, rhs) = pair();
    assert_eq!(ExprAst::Division { lhs, rhs }.to_string(), "a / 1");
    let (lhs, rhs) = pair();
    assert_eq!(ExprAst::Multiplication { lhs, rhs }.to_string(), "a * 1");
    let (lhs, rhs) = pair();
    assert_eq!(ExprAst::Eq { lhs, rhs }.to_string(), "a == 1");
    let (lhs, rhs) = pair();
    assert_eq!(ExprAst::Neq { lhs, rhs }.to_string(), "a != 1");
    let (lhs, rhs) = pair();
    assert_eq!(ExprAst::GtEq { lhs, rhs }.to_string(), "a >= 1");
    let (lhs, rhs) = pair();
    assert_eq!(ExprAst::LtEq { lhs, rhs }.to_string(), "a <= 1");
    let (lhs, rhs) = pair();
    assert_eq!(ExprAst::Gt { lhs, rhs }.to_string(), "a > 1");
    let (lhs, rhs) = pair();
    assert_eq!(ExprAst::Lt { lhs, rhs }.to_string(), "a < 1");
    assert_eq!(add(add(var("a"), var("b")), var("c")).to_string(), "a + b + c");
}

#[test]
fn lists_and_calls_lose_their_last_two_characters() {
    let list = EvalValue::List { val: vec![num("1"), var("x")] };
    assert_eq!(list.to_string(), "[1, x");
    assert_eq!(EvalValue::List { val: vec![] }.to_string(), "");
    let call = ExprAst::FunctionCall { name: "f".to_string(), args: vec![num("1"), var("x")] };
    assert_eq!(call.to_string(), "f(1, x)");
    let bare = ExprAst::FunctionCall { name: "foo".to_string(), args: vec![] };
    assert_eq!(bare.to_string(), "fo)");
    let short = ExprAst::FunctionCall { name: "f".to_string(), args: vec![] };
    assert_eq!(short.to_string(), ")");
}

#[test]
fn leaves_give_what_they_hold() {
    assert_eq!(EvalValue::IntegerLiteral { val: "-12".to_string() }.get_int(), -12);
    assert_eq!(EvalValue::IntegerLiteral { val: "2147483647".to_string() }.get_int(), i32::MAX);
    assert!(EvalValue::BooleanLiteral { val: true }.get_bool());
    assert!(!EvalValue::BooleanLiteral { val: false }.get_bool());
    assert_eq!(EvalValue::Stringliteral { val: "s".to_string() }.get_string(), "s");
}

#[test]
fn copies_of_syntax_are_equal_to_what_they_copy() {
    let expr = add(
        ExprAst::FunctionCall { name: "f".to_string(), args: vec![num("1"), fraction("2.5")] },
        ExprAst::Value { val: EvalValue::List { val: vec![var("x")] } },
    );
    assert_eq!(copy_expr(&expr), expr);
    assert_eq!(expr.clone(), expr);
    let statement = Statement::Conditional {
        condition: var("a"),
        body: vec![Statement::Break, Statement::Return { returns: vec![num("1")] }],
        else_if_conditions: vec![(var("b"), vec![Statement::Continue])],
        else_body: Some(vec![Statement::VariableMultiAssignment {
            variables: vec!["p".to_string(), "q".to_string()],
            value: expr.clone(),
        }]),
    };
    assert_eq!(copy_statement(&statement), statement);
    assert_eq!(statement.clone(), statement);
    let block = vec![
        statement,
        Statement::FunctionDefinition {
            name: "f".to_string(),
            args: vec!["a".to_string()],
            body: vec![Statement::WhileLoop { condition: var("a"), body: vec![] }],
        },
        Statement::ClassDeclaration { class_name: "C".to_string(), members: vec!["m".to_string()] },
        Statement::ForLoop {
            var_name: "i".to_string(),
            start: num("0"),
            end: num("3"),
            body: vec![Statement::Break],
        },
    ];
    assert_eq!(copy_block(&block), block);
}

#[test]
fn the_float_literals_of_a_program_come_in_the_order_of_the_source() {
    let statements = vec![
        Statement::VariableAssignment { name: "a".to_string(), value: add(fraction("1.5"), num("2")) },
        Statement::FunctionDefinition {
            name: "f".to_string(),
            args: vec![],
            body: vec![Statement::Return { returns: vec![fraction("2.5"), fraction("1.5")] }],
        },
        Statement::Conditional {
            condition: ExprAst::Lt { lhs: Box::new(var("a")), rhs: Box::new(fraction("3.5")) },
            body: vec![Statement::FunctionCall {
                name: "print".to_string(),
                args: vec![ExprAst::Value { val: EvalValue::List { val: vec![fraction("4.5")] } }],
            }],
            else_if_conditions: vec![(
                fraction("5.5"),
                vec![Statement::VariableReassignment { name: "a".to_string(), value: fraction("6.5") }],
            )],
            else_body: Some(vec![Statement::WhileLoop {
                condition: fraction("7.5"),
                body: vec![Statement::Break],
            }]),
        },
        Statement::Break,
    ];
    assert_eq!(
        float_literals(&statements),
        vec!["1.5", "2.5", "1.5", "3.5", "4.5", "5.5", "6.5", "7.5"]
    );
    assert_eq!(float_literals(&vec![]), Vec::<String>::new());
}

#[test]
fn emulate_runs_a_program_from_its_start() {
    let tables = InstructionCompiler::new();
    let mut output = String::new();
    let stop = VirtualMachine::emulate(
        vec![
            Instruction::Push(ValueType::String(StringValue::new("out".to_string()))),
            Instruction::Push(ValueType::Int(IntValue::Int32(1))),
            Instruction::Call("println".to_string()),
        ],
        tables.functions_locations,
        tables.class_creators,
        100,
        &mut output,
    );
    assert_eq!(stop, RunStop::Halted);
    assert_eq!(output, "out\n");
}

#[test]
fn a_reference_gives_what_the_table_holds_under_its_name() {
    let mut table: StringHashMap<EvalValue> = StringHashMap::new();
    table.insert("x".to_string(), EvalValue::IntegerLiteral { val: "5".to_string() });
    table.insert(
        "y".to_string(),
        EvalValue::List { val: vec![num("1"), var("x")] },
    );
    let reference = EvalValue::Reference { val: "x".to_string() };
    assert_eq!(
        reference.get_reference(&table),
        EvalValue::IntegerLiteral { val: "5".to_string() }
    );
    let reference = EvalValue::Reference { val: "y".to_string() };
    assert_eq!(
        reference.get_reference(&table),
        EvalValue::List { val: vec![num("1"), var("x")] }
    );
}
