use bare_script::eval_parser::ParseNode;
use bare_script::eval_parser::Rule;
use bare_script::instruction::Instruction;
use bare_script::int_value::IntValue;
use bare_script::labels::compile;
use bare_script::parser::parse_file_data;
use bare_script::value::ValueType;
use bare_script::virtual_machine::RunStop;
use bare_script::virtual_machine::VirtualMachine;

fn node(rule: Rule, text: &str, children: Vec<ParseNode>) -> ParseNode {
    ParseNode { rule, text: text.to_string(), children }
}

fn leaf(rule: Rule, text: &str) -> ParseNode {
    node(rule, text, vec![])
}

fn term(inner: ParseNode) -> ParseNode {
    node(Rule::Term, "", vec![inner])
}

fn number(text: &str) -> ParseNode {
    term(leaf(Rule::Integer, text))
}

fn name(text: &str) -> ParseNode {
    term(leaf(Rule::Identifier, text))
}

fn product(children: Vec<ParseNode>) -> ParseNode {
    node(Rule::Product, "", children)
}

fn sum(children: Vec<ParseNode>) -> ParseNode {
    node(Rule::Sum, "", children)
}

fn compare(lhs: ParseNode, op: &str, rhs: ParseNode) -> ParseNode {
    node(
        Rule::Expr,
        "",
        vec![node(
            Rule::BareExpr,
            "",
            vec![
                sum(vec![product(vec![lhs])]),
                leaf(Rule::EqOps, op),
                sum(vec![product(vec![rhs])]),
            ],
        )],
    )
}

fn expr_of_sum(children: Vec<ParseNode>) -> ParseNode {
    node(Rule::Expr, "", vec![node(Rule::BareExpr, "", vec![sum(children)])])
}

fn expr(inner: ParseNode) -> ParseNode {
    expr_of_sum(vec![product(vec![inner])])
}

fn call(function: &str, args: Vec<ParseNode>) -> ParseNode {
    let mut children = vec![leaf(Rule::Identifier, function)];
    children.extend(args);
    node(Rule::FunctionCall, "", children)
}

fn call_statement(function: &str, args: Vec<ParseNode>) -> ParseNode {
    node(Rule::FunctionCallStatement, "", vec![call(function, args)])
}

fn assign(variable: &str, value: ParseNode) -> ParseNode {
    node(Rule::VariableAssignment, "", vec![leaf(Rule::Identifier, variable), value])
}

fn reassign(variable: &str, value: ParseNode) -> ParseNode {
    node(Rule::VariableReassignment, "", vec![leaf(Rule::Identifier, variable), value])
}

fn block(statements: Vec<ParseNode>) -> ParseNode {
    node(Rule::Block, "", statements)
}

/// Builds the program, compiles it, runs it, and returns what it wrote and the machine.
fn output_of(mut nodes: Vec<ParseNode>) -> (String, VirtualMachine) {
    nodes.push(leaf(Rule::EOI, ""));
    let statements = parse_file_data(&nodes).unwrap();
    let (instructions, functions, classes) = compile(&statements, &vec![]).ok().unwrap();
    let mut vm = VirtualMachine::new(instructions, functions, classes);
    let mut output = String::new();
    let stop = vm.run(100_000, &mut output);
    assert_eq!(stop, RunStop::Halted);
    (output, vm)
}

#[test]
fn arithmetic_and_print() {
    // x = 1 + 2 * 3
    // println(x)
    let program = vec![
        assign(
            "x",
            expr_of_sum(vec![
                product(vec![number("1")]),
                leaf(Rule::SumOps, "+"),
                product(vec![number("2"), leaf(Rule::ProdOps, "*"), number("3")]),
            ]),
        ),
        call_statement("println", vec![expr(name("x"))]),
    ];
    let (output, vm) = output_of(program);
    assert_eq!(output, "7\n");
    assert_eq!(vm.get_heap().len(), 0);
    assert!(vm.stack.is_empty());
}

#[test]
fn widening() {
    // a = 127
    // b = 1
    // println(a + b)
    let program = vec![
        assign("a", expr(number("127"))),
        assign("b", expr(number("1"))),
        call_statement(
            "println",
            vec![expr_of_sum(vec![
                product(vec![name("a")]),
                leaf(Rule::SumOps, "+"),
                product(vec![name("b")]),
            ])],
        ),
    ];
    let (output, vm) = output_of(program);
    assert_eq!(output, "128\n");
    assert_eq!(vm.get_heap().len(), 0);
}

#[test]
fn control_flow_and_while() {
    // i = 0
    // s = 0
    // while i < 5 {
    //   s = s + i
    //   i = i + 1
    // }
    // println(s)
    let plus = |a: ParseNode, b: ParseNode| {
        expr_of_sum(vec![product(vec![a]), leaf(Rule::SumOps, "+"), product(vec![b])])
    };
    let program = vec![
        assign("i", expr(number("0"))),
        assign("s", expr(number("0"))),
        node(
            Rule::WhileLoop,
            "",
            vec![
                compare(name("i"), "<", number("5")),
                block(vec![
                    reassign("s", plus(name("s"), name("i"))),
                    reassign("i", plus(name("i"), number("1"))),
                ]),
            ],
        ),
        call_statement("println", vec![expr(name("s"))]),
    ];
    let (output, vm) = output_of(program);
    assert_eq!(output, "10\n");
    assert_eq!(vm.get_heap().len(), 0);
}

#[test]
fn function_with_early_return_and_argument_deletion() {
    // fn f(n) { if n == 0 { return 1 } return n * 2 }
    // println(f(0))
    // println(f(3))
    let early = node(
        Rule::Conditional,
        "",
        vec![node(
            Rule::ConditionalIf,
            "",
            vec![
                compare(name("n"), "==", number("0")),
                block(vec![node(Rule::ReturnKw, "", vec![expr(number("1"))])]),
            ],
        )],
    );
    let last = node(
        Rule::ReturnKw,
        "",
        vec![expr_of_sum(vec![product(vec![
            name("n"),
            leaf(Rule::ProdOps, "*"),
            number("2"),
        ])])],
    );
    let program = vec![
        node(
            Rule::FunctionDeclaration,
            "",
            vec![leaf(Rule::Identifier, "f"), leaf(Rule::Identifier, "n"), block(vec![early, last])],
        ),
        call_statement("println", vec![expr(term(call("f", vec![expr(number("0"))])))]),
        call_statement("println", vec![expr(term(call("f", vec![expr(number("3"))])))]),
    ];
    let (output, vm) = output_of(program);
    assert_eq!(output, "1\n6\n");
    assert_eq!(vm.get_heap().len(), 0);
    assert!(vm.call_stack.is_empty());
    assert!(vm.stack.is_empty());
}

#[test]
fn lists() {
    // xs = [1, 2, 3]
    // xs = push(xs, 4)
    // println(xs)
    let list = node(
        Rule::List,
        "",
        vec![expr(number("1")), expr(number("2")), expr(number("3"))],
    );
    let program = vec![
        assign("xs", expr(term(list))),
        reassign(
            "xs",
            expr(term(call("push", vec![expr(name("xs")), expr(number("4"))]))),
        ),
        call_statement("println", vec![expr(name("xs"))]),
    ];
    let (output, vm) = output_of(program);
    assert_eq!(output, "[1, 2, 3, 4]\n");
    assert_eq!(vm.get_heap().len(), 0);
}

#[test]
fn classes() {
    // class Point(x, y)
    // p = Point(3, 4)
    // println(p.x + p.y)
    let program = vec![
        node(
            Rule::ClassDeclaration,
            "",
            vec![
                leaf(Rule::Identifier, "Point"),
                leaf(Rule::Identifier, "x"),
                leaf(Rule::Identifier, "y"),
            ],
        ),
        assign(
            "p",
            expr(term(call("Point", vec![expr(number("3")), expr(number("4"))]))),
        ),
        call_statement(
            "println",
            vec![expr_of_sum(vec![
                product(vec![name("p.x")]),
                leaf(Rule::SumOps, "+"),
                product(vec![name("p.y")]),
            ])],
        ),
    ];
    let (output, vm) = output_of(program);
    assert_eq!(output, "7\n");
    assert_eq!(vm.get_heap().len(), 0);
}

#[test]
fn a_call_with_the_wrong_number_of_arguments_fails_the_functions_own_check() {
    // fn f(n) { return n }
    // f(1, 2)
    let program = vec![
        node(
            Rule::FunctionDeclaration,
            "",
            vec![
                leaf(Rule::Identifier, "f"),
                leaf(Rule::Identifier, "n"),
                block(vec![node(Rule::ReturnKw, "", vec![expr(name("n"))])]),
            ],
        ),
        call_statement("f", vec![expr(number("1")), expr(number("2"))]),
        leaf(Rule::EOI, ""),
    ];
    let statements = parse_file_data(&program).unwrap();
    let (instructions, functions, classes) = compile(&statements, &vec![]).ok().unwrap();
    let mut vm = VirtualMachine::new(instructions, functions, classes);
    let mut output = String::new();
    assert_eq!(
        vm.run(1000, &mut output),
        RunStop::Failed(bare_script::error::VmError::AssertionFailure(
            "Error: Expected 1 arguments".to_string()
        ))
    );
}

#[test]
fn a_program_of_assignments_leaves_no_variable() {
    // a = 1
    // b = 300
    // c = -5
    let program = vec![
        assign("a", expr(number("1"))),
        assign("b", expr(number("300"))),
        assign("c", expr(number("-5"))),
        leaf(Rule::EOI, ""),
    ];
    let statements = parse_file_data(&program).unwrap();
    let (instructions, functions, classes) = compile(&statements, &vec![]).ok().unwrap();
    assert_eq!(
        instructions,
        vec![
            Instruction::Push(ValueType::Int(IntValue::Int8(1))),
            Instruction::NewVariable("a".to_string()),
            Instruction::Push(ValueType::Int(IntValue::Int16(300))),
            Instruction::NewVariable("b".to_string()),
            Instruction::Push(ValueType::Int(IntValue::Int8(-5))),
            Instruction::NewVariable("c".to_string()),
            Instruction::Delete("a".to_string()),
            Instruction::Delete("b".to_string()),
            Instruction::Delete("c".to_string()),
        ]
    );
    assert_eq!(functions.len(), 0);
    assert_eq!(classes.len(), 0);
    let mut vm = VirtualMachine::new(instructions, functions, classes);
    let mut output = String::new();
    // One step for the `Nop`, and three for each variable.
    assert_eq!(vm.run(9, &mut output), RunStop::OutOfSteps);
    assert_eq!(vm.run(1, &mut output), RunStop::Halted);
    assert_eq!(vm.pc, 10);
    assert_eq!(vm.get_heap().len(), 0);
    assert!(vm.stack.is_empty());
    assert_eq!(output, "");
}

fn truth(text: &str) -> ParseNode {
    expr(term(leaf(Rule::Boolean, text)))
}

fn loop_of(condition: ParseNode, body: Vec<ParseNode>) -> ParseNode {
    node(Rule::WhileLoop, "", vec![condition, block(body)])
}

#[test]
fn a_loop_left_by_break_leaves_no_variable() {
    // while true { x = 1; break }
    let program = vec![loop_of(
        truth("true"),
        vec![assign("x", expr(number("1"))), leaf(Rule::BreakKw, "break")],
    )];
    let (output, vm) = output_of(program);
    assert_eq!(output, "");
    assert_eq!(vm.get_heap().len(), 0);
}

#[test]
fn a_loop_taken_up_by_continue_makes_its_variable_anew() {
    // i = 0
    // while i < 3 { x = i; i = i + 1; continue }
    // println(i)
    let program = vec![
        assign("i", expr(number("0"))),
        loop_of(
            compare(name("i"), "<", number("3")),
            vec![
                assign("x", expr(name("i"))),
                reassign(
                    "i",
                    expr_of_sum(vec![
                        product(vec![name("i")]),
                        leaf(Rule::SumOps, "+"),
                        product(vec![number("1")]),
                    ]),
                ),
                leaf(Rule::ContinueKw, "continue"),
            ],
        ),
        call_statement("println", vec![expr(name("i"))]),
    ];
    let (output, vm) = output_of(program);
    assert_eq!(output, "3\n");
    assert_eq!(vm.get_heap().len(), 0);
}

#[test]
fn a_function_with_a_variable_that_returns_early_can_be_called_again() {
    // fn f(n) { d = n * 2; if n == 0 { return 1 } return d }
    // println(f(0))
    // println(f(3))
    let body = block(vec![
        assign(
            "d",
            expr_of_sum(vec![product(vec![name("n"), leaf(Rule::ProdOps, "*"), number("2")])]),
        ),
        node(
            Rule::Conditional,
            "",
            vec![node(
                Rule::ConditionalIf,
                "",
                vec![
                    compare(name("n"), "==", number("0")),
                    block(vec![node(Rule::ReturnKw, "", vec![expr(number("1"))])]),
                ],
            )],
        ),
        node(Rule::ReturnKw, "", vec![expr(name("d"))]),
    ]);
    let definition = node(
        Rule::FunctionDeclaration,
        "",
        vec![leaf(Rule::Identifier, "f"), leaf(Rule::Identifier, "n"), body],
    );
    let program = vec![
        definition,
        call_statement("println", vec![expr(term(call("f", vec![expr(number("0"))])))]),
        call_statement("println", vec![expr(term(call("f", vec![expr(number("3"))])))]),
    ];
    let (output, vm) = output_of(program);
    assert_eq!(output, "1\n6\n");
    assert_eq!(vm.get_heap().len(), 0);
}
