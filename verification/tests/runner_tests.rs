use bare_script::error::ArithmeticError;
use bare_script::eval_parser::EvalValue;
use bare_script::eval_parser::ExprAst;
use bare_script::node_runner::FloatFact;
use bare_script::node_runner::FloatQuestion;
use bare_script::node_runner::NodeRunner;
use bare_script::node_runner::RunnerError;
use bare_script::operators::BinaryOp;
use bare_script::parser::Statement;

fn num(text: &str) -> ExprAst {
    ExprAst::Value { val: EvalValue::IntegerLiteral { val: text.to_string() } }
}

fn fraction(text: &str) -> ExprAst {
    ExprAst::Value { val: EvalValue::FloatLiteral { val: text.to_string() } }
}

fn string(text: &str) -> ExprAst {
    ExprAst::Value { val: EvalValue::Stringliteral { val: text.to_string() } }
}

fn truth(b: bool) -> ExprAst {
    ExprAst::Value { val: EvalValue::BooleanLiteral { val: b } }
}

fn var(text: &str) -> ExprAst {
    ExprAst::Value { val: EvalValue::Reference { val: text.to_string() } }
}

fn add(lhs: ExprAst, rhs: ExprAst) -> ExprAst {
    ExprAst::Addition { lhs: Box::new(lhs), rhs: Box::new(rhs) }
}

fn less(lhs: ExprAst, rhs: ExprAst) -> ExprAst {
    ExprAst::Lt { lhs: Box::new(lhs), rhs: Box::new(rhs) }
}

fn call(name: &str, args: Vec<ExprAst>) -> ExprAst {
    ExprAst::FunctionCall { name: name.to_string(), args }
}

fn assign(name: &str, value: ExprAst) -> Statement {
    Statement::VariableAssignment { name: name.to_string(), value }
}

fn reassign(name: &str, value: ExprAst) -> Statement {
    Statement::VariableReassignment { name: name.to_string(), value }
}

fn println(args: Vec<ExprAst>) -> Statement {
    Statement::FunctionCall { name: "println".to_string(), args }
}

fn int_value(text: &str) -> EvalValue {
    EvalValue::IntegerLiteral { val: text.to_string() }
}

fn float_value(text: &str) -> EvalValue {
    EvalValue::FloatLiteral { val: text.to_string() }
}

fn value_of(expr: ExprAst) -> Result<EvalValue, RunnerError> {
    let mut out = String::new();
    NodeRunner::new().evaluate_expr(&expr, &vec![], &mut out)
}

/// Runs the program with 1000 turns for its loops: returns what it wrote, or the failure.
fn output_of(program: Vec<Statement>) -> Result<String, RunnerError> {
    let mut runner = NodeRunner::new();
    let mut out = String::new();
    let mut fuel = 1000;
    runner.run(&program, false, &vec![], &mut fuel, &mut out).map(|_| out)
}

#[test]
fn the_evaluator_computes_with_integers_at_32_bits() {
    assert_eq!(value_of(add(num("1"), num("2"))), Ok(int_value("3")));
    assert_eq!(
        value_of(ExprAst::Subtraction { lhs: Box::new(num("1")), rhs: Box::new(num("2")) }),
        Ok(int_value("-1"))
    );
    assert_eq!(
        value_of(ExprAst::Multiplication { lhs: Box::new(num("-3")), rhs: Box::new(num("4")) }),
        Ok(int_value("-12"))
    );
    assert_eq!(
        value_of(add(num("2147483647"), num("1"))),
        Err(RunnerError::Arithmetic(ArithmeticError::Overflow))
    );
    assert_eq!(value_of(add(num("2147483648"), num("1"))), Err(RunnerError::Type));
    assert_eq!(value_of(add(num("x"), num("1"))), Err(RunnerError::Type));
}

#[test]
fn the_evaluator_compares_integers() {
    let pair = || (Box::new(num("1")), Box::new(num("2")));
    let (lhs, rhs) = pair();
    assert_eq!(value_of(ExprAst::Eq { lhs, rhs }), Ok(EvalValue::BooleanLiteral { val: false }));
    let (lhs, rhs) = pair();
    assert_eq!(value_of(ExprAst::Neq { lhs, rhs }), Ok(EvalValue::BooleanLiteral { val: true }));
    let (lhs, rhs) = pair();
    assert_eq!(value_of(ExprAst::Lt { lhs, rhs }), Ok(EvalValue::BooleanLiteral { val: true }));
    let (lhs, rhs) = pair();
    assert_eq!(value_of(ExprAst::LtEq { lhs, rhs }), Ok(EvalValue::BooleanLiteral { val: true }));
    let (lhs, rhs) = pair();
    assert_eq!(value_of(ExprAst::Gt { lhs, rhs }), Ok(EvalValue::BooleanLiteral { val: false }));
    let (lhs, rhs) = pair();
    assert_eq!(value_of(ExprAst::GtEq { lhs, rhs }), Ok(EvalValue::BooleanLiteral { val: false }));
}

#[test]
fn the_evaluator_joins_and_compares_strings() {
    assert_eq!(
        value_of(add(string("ab"), string("cd"))),
        Ok(EvalValue::Stringliteral { val: "abcd".to_string() })
    );
    assert_eq!(
        value_of(ExprAst::Eq { lhs: Box::new(string("a")), rhs: Box::new(string("a")) }),
        Ok(EvalValue::BooleanLiteral { val: true })
    );
    assert_eq!(
        value_of(ExprAst::Neq { lhs: Box::new(string("a")), rhs: Box::new(string("a")) }),
        Ok(EvalValue::BooleanLiteral { val: false })
    );
    assert_eq!(value_of(less(string("a"), string("b"))), Err(RunnerError::Type));
    assert_eq!(value_of(add(string("a"), num("1"))), Err(RunnerError::Type));
    assert_eq!(value_of(add(truth(true), truth(true))), Err(RunnerError::Type));
}

#[test]
fn operations_on_floats_are_questions_until_the_table_answers_them() {
    let question = FloatQuestion { op: BinaryOp::Add, lhs: int_value("1"), rhs: float_value("2.5") };
    assert_eq!(
        value_of(add(num("1"), fraction("2.5"))),
        Err(RunnerError::Float(question))
    );
    let facts = vec![
        FloatFact {
            question: FloatQuestion {
                op: BinaryOp::Add,
                lhs: float_value("1"),
                rhs: float_value("2.5"),
            },
            answer: float_value("0"),
        },
        FloatFact {
            question: FloatQuestion { op: BinaryOp::Add, lhs: int_value("1"), rhs: float_value("2.5") },
            answer: float_value("3.5"),
        },
    ];
    let mut out = String::new();
    assert_eq!(
        NodeRunner::new().evaluate_expr(&add(num("1"), fraction("2.5")), &facts, &mut out),
        Ok(float_value("3.5"))
    );
    assert_eq!(
        NodeRunner::new().evaluate_expr(&less(num("1"), fraction("2.5")), &facts, &mut out),
        Err(RunnerError::Float(FloatQuestion {
            op: BinaryOp::Lt,
            lhs: int_value("1"),
            rhs: float_value("2.5")
        }))
    );
}

#[test]
fn the_division_of_two_integers_is_a_question() {
    let division = ExprAst::Division { lhs: Box::new(num("7")), rhs: Box::new(num("2")) };
    assert_eq!(
        value_of(division),
        Err(RunnerError::Float(FloatQuestion {
            op: BinaryOp::Div,
            lhs: int_value("7"),
            rhs: int_value("2")
        }))
    );
    let division = ExprAst::Division { lhs: Box::new(num("x")), rhs: Box::new(num("2")) };
    assert_eq!(value_of(division), Err(RunnerError::Type));
}

#[test]
fn names_stand_for_their_variables() {
    let mut runner = NodeRunner::new();
    let mut out = String::new();
    let mut fuel = 10;
    runner.locals_scope.push(0);
    assert_eq!(
        runner.execute(&assign("x", num("5")), false, &vec![], &mut fuel, &mut out),
        Ok(None)
    );
    assert_eq!(runner.evaluate_expr(&var("x"), &vec![], &mut out), Ok(int_value("5")));
    assert_eq!(runner.evaluate_expr(&add(var("x"), num("1")), &vec![], &mut out), Ok(int_value("6")));
    assert_eq!(runner.evaluate_expr(&var("y"), &vec![], &mut out), Err(RunnerError::Name));
    assert_eq!(runner.get_value_type(&EvalValue::Reference { val: "x".to_string() }), Ok(1));
    assert_eq!(
        runner.get_value_type(&EvalValue::Reference { val: "y".to_string() }),
        Err(RunnerError::Name)
    );
    assert_eq!(runner.locals_tracker, vec!["x".to_string()]);
    assert_eq!(runner.locals_scope, vec![1]);
    assert_eq!(fuel, 10);
    assert_eq!(out, "");
}

#[test]
fn the_kinds_of_literals() {
    let runner = NodeRunner::new();
    assert_eq!(runner.get_value_type(&int_value("1")), Ok(1));
    assert_eq!(runner.get_value_type(&EvalValue::Stringliteral { val: "s".to_string() }), Ok(2));
    assert_eq!(runner.get_value_type(&float_value("1.5")), Ok(3));
    assert_eq!(runner.get_value_type(&EvalValue::BooleanLiteral { val: true }), Ok(4));
    assert_eq!(
        runner.get_value_type(&EvalValue::List { val: vec![] }),
        Err(RunnerError::Type)
    );
}

#[test]
fn print_writes_and_stands_for_none() {
    let mut out = String::new();
    let runner = NodeRunner::new();
    assert_eq!(
        runner.evaluate_expr(&call("print", vec![num("1"), string("a"), truth(true)]), &vec![], &mut out),
        Ok(EvalValue::Stringliteral { val: "NONE".to_string() })
    );
    assert_eq!(out, "1 a true");
    let mut out = String::new();
    assert_eq!(
        runner.handle_function_call("println", &vec![add(num("1"), num("2"))], &vec![], &mut out),
        Ok(None)
    );
    assert_eq!(out, "3\n");
    let mut out = String::new();
    assert_eq!(runner.call_builtin_function("println", &vec![], &vec![], &mut out), Ok(None));
    assert_eq!(out, "\n");
    // What an argument writes comes before what the call writes.
    let mut out = String::new();
    assert_eq!(
        runner.evaluate_expr(
            &call("println", vec![call("print", vec![string("in")]), string("out")]),
            &vec![],
            &mut out
        ),
        Ok(EvalValue::Stringliteral { val: "NONE".to_string() })
    );
    assert_eq!(out, "inNONE out\n");
}

#[test]
fn format_fills_placeholders_with_its_arguments() {
    assert_eq!(
        value_of(call("format", vec![string("{} and {}: {}"), num("1"), string("two"), truth(false)])),
        Ok(EvalValue::Stringliteral { val: "1 and two: false".to_string() })
    );
    assert_eq!(
        value_of(call("format", vec![string("{}"), fraction("1.50")])),
        Ok(EvalValue::Stringliteral { val: "1.50".to_string() })
    );
    assert_eq!(
        value_of(call("format", vec![string("plain")])),
        Ok(EvalValue::Stringliteral { val: "plain".to_string() })
    );
    assert_eq!(value_of(call("format", vec![])), Err(RunnerError::Type));
    assert_eq!(value_of(call("format", vec![num("1")])), Err(RunnerError::Type));
    assert_eq!(
        value_of(call(
            "format",
            vec![string("{}"), ExprAst::Value { val: EvalValue::List { val: vec![] } }]
        )),
        Err(RunnerError::Type)
    );
}

#[test]
fn no_other_function_can_be_called() {
    assert_eq!(value_of(call("push", vec![])), Err(RunnerError::Unsupported));
    let mut out = String::new();
    assert_eq!(
        NodeRunner::new().call_builtin_function("assert", &vec![], &vec![], &mut out),
        Err(RunnerError::Unsupported)
    );
}

#[test]
fn a_block_forgets_its_variables_at_its_end() {
    let mut runner = NodeRunner::new();
    let mut out = String::new();
    let mut fuel = 10;
    let program = vec![
        assign("a", num("1")),
        assign("b", add(var("a"), num("1"))),
        println(vec![var("a"), var("b")]),
    ];
    assert_eq!(runner.run(&program, false, &vec![], &mut fuel, &mut out), Ok(None));
    assert_eq!(out, "1 2\n");
    assert_eq!(runner.locals.len(), 0);
    assert!(runner.locals_tracker.is_empty());
    assert!(runner.locals_scope.is_empty());
}

#[test]
fn a_reassignment_needs_its_variable() {
    assert_eq!(output_of(vec![reassign("x", num("1"))]), Err(RunnerError::Name));
    assert_eq!(
        output_of(vec![assign("x", num("1")), reassign("x", num("2")), println(vec![var("x")])]),
        Ok("2\n".to_string())
    );
}

#[test]
fn a_conditional_runs_the_first_branch_that_applies() {
    let conditional = |first: bool, second: bool| Statement::Conditional {
        condition: truth(first),
        body: vec![println(vec![string("if")])],
        else_if_conditions: vec![
            (truth(false), vec![println(vec![string("never")])]),
            (truth(second), vec![println(vec![string("else if")])]),
        ],
        else_body: Some(vec![println(vec![string("else")])]),
    };
    assert_eq!(output_of(vec![conditional(true, true)]), Ok("if\n".to_string()));
    assert_eq!(output_of(vec![conditional(false, true)]), Ok("else if\n".to_string()));
    assert_eq!(output_of(vec![conditional(false, false)]), Ok("else\n".to_string()));
    let bare = Statement::Conditional {
        condition: truth(false),
        body: vec![println(vec![string("if")])],
        else_if_conditions: vec![],
        else_body: None,
    };
    assert_eq!(output_of(vec![bare]), Ok("".to_string()));
    let not_a_truth = Statement::Conditional {
        condition: num("1"),
        body: vec![],
        else_if_conditions: vec![],
        else_body: None,
    };
    assert_eq!(output_of(vec![not_a_truth]), Err(RunnerError::Type));
}

#[test]
fn a_loop_runs_while_its_condition_holds() {
    // i = 0
    // while i < 3 { println(i)  i = i + 1 }
    let program = vec![
        assign("i", num("0")),
        Statement::WhileLoop {
            condition: less(var("i"), num("3")),
            body: vec![println(vec![var("i")]), reassign("i", add(var("i"), num("1")))],
        },
        println(vec![string("done"), var("i")]),
    ];
    assert_eq!(output_of(program), Ok("0\n1\n2\ndone 3\n".to_string()));
}

#[test]
fn break_ends_a_loop_and_continue_goes_to_its_next_turn() {
    // i = 0
    // while true {
    //   i = i + 1
    //   if i == 2 { continue }
    //   if i == 4 { break }
    //   println(i)
    // }
    let equals = |n: &str| ExprAst::Eq { lhs: Box::new(var("i")), rhs: Box::new(num(n)) };
    let when = |n: &str, then: Statement| Statement::Conditional {
        condition: equals(n),
        body: vec![then],
        else_if_conditions: vec![],
        else_body: None,
    };
    let program = vec![
        assign("i", num("0")),
        Statement::WhileLoop {
            condition: truth(true),
            body: vec![
                reassign("i", add(var("i"), num("1"))),
                when("2", Statement::Continue),
                when("4", Statement::Break),
                println(vec![var("i")]),
            ],
        },
    ];
    assert_eq!(output_of(program), Ok("1\n3\n".to_string()));
}

#[test]
fn break_and_continue_need_a_loop() {
    assert_eq!(output_of(vec![Statement::Break]), Err(RunnerError::OutsideLoop));
    assert_eq!(output_of(vec![Statement::Continue]), Err(RunnerError::OutsideLoop));
}

#[test]
fn a_loop_that_does_not_end_runs_out_of_turns() {
    let program = vec![Statement::WhileLoop { condition: truth(true), body: vec![] }];
    let mut runner = NodeRunner::new();
    let mut out = String::new();
    let mut fuel = 25;
    assert_eq!(
        runner.run(&program, false, &vec![], &mut fuel, &mut out),
        Err(RunnerError::OutOfSteps)
    );
}

#[test]
fn each_turn_of_a_loop_takes_one_off_the_turns_that_are_left() {
    let program = vec![
        assign("i", num("0")),
        Statement::WhileLoop {
            condition: less(var("i"), num("3")),
            body: vec![reassign("i", add(var("i"), num("1")))],
        },
    ];
    let mut runner = NodeRunner::new();
    let mut out = String::new();
    let mut fuel = 10;
    assert_eq!(runner.run(&program, false, &vec![], &mut fuel, &mut out), Ok(None));
    assert_eq!(fuel, 7);
}

#[test]
fn other_statements_are_not_supported() {
    assert_eq!(
        output_of(vec![Statement::Return { returns: vec![] }]),
        Err(RunnerError::Unsupported)
    );
    assert_eq!(
        output_of(vec![Statement::FunctionDefinition {
            name: "f".to_string(),
            args: vec![],
            body: vec![]
        }]),
        Err(RunnerError::Unsupported)
    );
    assert_eq!(
        output_of(vec![Statement::ClassDeclaration { class_name: "C".to_string(), members: vec![] }]),
        Err(RunnerError::Unsupported)
    );
}

#[test]
fn an_assignment_outside_a_block_fails() {
    let mut runner = NodeRunner::new();
    let mut out = String::new();
    let mut fuel = 10;
    assert_eq!(
        runner.execute(&assign("x", num("5")), false, &vec![], &mut fuel, &mut out),
        Err(RunnerError::Type)
    );
}

#[test]
fn the_evaluator_reads_a_template_once() {
    assert_eq!(
        value_of(call("format", vec![string("{}"), string("{}"), string("x")])),
        Ok(EvalValue::Stringliteral { val: "{}".to_string() })
    );
    assert_eq!(
        value_of(call("format", vec![string("{}{}"), string("{}"), string("x")])),
        Ok(EvalValue::Stringliteral { val: "{}x".to_string() })
    );
    assert_eq!(
        value_of(call("format", vec![string("{} {} {}"), num("1")])),
        Ok(EvalValue::Stringliteral { val: "1 {} {}".to_string() })
    );
}
