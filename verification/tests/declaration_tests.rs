use bare_script::declarations::declare;
use bare_script::declarations::declare_block;
use bare_script::declarations::declare_statement;
use bare_script::declarations::knows;
use bare_script::eval_parser::EvalValue;
use bare_script::eval_parser::ExprAst;
use bare_script::labels::compile;
use bare_script::parser::Statement;
use bare_script::virtual_machine::RunStop;
use bare_script::virtual_machine::VirtualMachine;

fn whole(text: &str) -> ExprAst {
    ExprAst::Value { val: EvalValue::IntegerLiteral { val: text.to_string() } }
}

fn read(name: &str) -> ExprAst {
    ExprAst::Value { val: EvalValue::Reference { val: name.to_string() } }
}

fn less(lhs: ExprAst, rhs: ExprAst) -> ExprAst {
    ExprAst::Lt { lhs: Box::new(lhs), rhs: Box::new(rhs) }
}

fn plus(lhs: ExprAst, rhs: ExprAst) -> ExprAst {
    ExprAst::Addition { lhs: Box::new(lhs), rhs: Box::new(rhs) }
}

fn times(lhs: ExprAst, rhs: ExprAst) -> ExprAst {
    ExprAst::Multiplication { lhs: Box::new(lhs), rhs: Box::new(rhs) }
}

fn set(name: &str, value: ExprAst) -> Statement {
    Statement::VariableReassignment { name: name.to_string(), value }
}

fn introduce(name: &str, value: ExprAst) -> Statement {
    Statement::VariableAssignment { name: name.to_string(), value }
}

fn print_line(value: ExprAst) -> Statement {
    Statement::FunctionCall { name: "println".to_string(), args: vec![value] }
}

fn names(of: &[&str]) -> Vec<String> {
    of.iter().map(|n| n.to_string()).collect()
}

fn written_by(statements: &Vec<Statement>) -> String {
    let (instructions, functions, classes) = compile(statements, &vec![]).ok().unwrap();
    let mut vm = VirtualMachine::new(instructions, functions, classes);
    let mut output = String::new();
    assert_eq!(vm.run(100_000, &mut output), RunStop::Halted);
    assert_eq!(vm.get_heap().len(), 0);
    output
}

#[test]
fn the_first_assignment_to_a_name_introduces_it() {
    let program = vec![set("x", whole("1")), set("x", whole("2")), set("y", read("x"))];
    assert_eq!(
        declare(&program),
        vec![introduce("x", whole("1")), set("x", whole("2")), introduce("y", read("x"))]
    );
}

#[test]
fn an_assignment_to_a_member_introduces_nothing() {
    let program = vec![set("p.x", whole("1")), set("p", whole("2"))];
    assert_eq!(declare(&program), vec![set("p.x", whole("1")), introduce("p", whole("2"))]);
}

#[test]
fn what_a_block_introduces_is_known_inside_it_only() {
    let inside = |first: Statement| Statement::WhileLoop {
        condition: read("go"),
        body: vec![first, set("go", whole("0"))],
    };
    let program =
        vec![set("go", whole("1")), inside(set("t", whole("1"))), inside(set("t", whole("2")))];
    assert_eq!(
        declare(&program),
        vec![
            introduce("go", whole("1")),
            inside(introduce("t", whole("1"))),
            inside(introduce("t", whole("2"))),
        ]
    );
}

#[test]
fn each_branch_of_a_conditional_starts_from_what_is_known_before_it() {
    let conditional = |a: Statement, b: Statement, c: Statement| Statement::Conditional {
        condition: read("x"),
        body: vec![a],
        else_if_conditions: vec![(read("x"), vec![b])],
        else_body: Some(vec![c]),
    };
    let program = vec![
        set("x", whole("1")),
        conditional(set("y", whole("1")), set("y", whole("2")), set("x", whole("3"))),
        set("y", whole("4")),
    ];
    assert_eq!(
        declare(&program),
        vec![
            introduce("x", whole("1")),
            conditional(introduce("y", whole("1")), introduce("y", whole("2")), set("x", whole("3"))),
            introduce("y", whole("4")),
        ]
    );
}

#[test]
fn the_parameters_of_a_function_are_known_in_its_body() {
    let function = |body: Vec<Statement>| Statement::FunctionDefinition {
        name: "f".to_string(),
        args: names(&["a", "b"]),
        body,
    };
    let program = vec![
        set("g", whole("1")),
        function(vec![set("a", whole("1")), set("g", whole("2")), set("c", whole("3"))]),
        set("a", whole("4")),
    ];
    assert_eq!(
        declare(&program),
        vec![
            introduce("g", whole("1")),
            function(vec![set("a", whole("1")), set("g", whole("2")), introduce("c", whole("3"))]),
            introduce("a", whole("4")),
        ]
    );
}

#[test]
fn assignments_that_introduce_already_make_their_names_known() {
    let several = Statement::VariableMultiAssignment {
        variables: names(&["a", "b"]),
        value: read("pair"),
    };
    let mut known = names(&["pair"]);
    assert_eq!(
        declare_statement(&several, &mut known),
        Statement::VariableMultiAssignment { variables: names(&["a", "b"]), value: read("pair") }
    );
    assert_eq!(known, names(&["pair", "a", "b"]));
    assert_eq!(declare_statement(&introduce("c", whole("1")), &mut known), introduce("c", whole("1")));
    assert_eq!(known, names(&["pair", "a", "b", "c"]));
    assert_eq!(declare_statement(&set("b", whole("1")), &mut known), set("b", whole("1")));
    assert_eq!(known, names(&["pair", "a", "b", "c"]));
    assert_eq!(declare_statement(&set("d", whole("1")), &mut known), introduce("d", whole("1")));
    assert_eq!(known, names(&["pair", "a", "b", "c", "d"]));
    assert_eq!(declare_statement(&Statement::Break, &mut known), Statement::Break);
    assert_eq!(known.len(), 5);
}

#[test]
fn a_block_is_declared_from_the_names_that_are_known_around_it() {
    let block = vec![set("x", whole("1")), set("y", whole("2"))];
    assert_eq!(
        declare_block(&block, &names(&["y"])),
        vec![introduce("x", whole("1")), set("y", whole("2"))]
    );
    assert!(knows(&names(&["a", "b"]), "b"));
    assert!(!knows(&names(&["a", "b"]), "c"));
    assert!(!knows(&names(&[]), ""));
}

#[test]
fn a_sum_in_a_loop_runs_as_it_is_written() {
    // i = 0
    // s = 0
    // while i < 5 {
    //   s = s + i
    //   i = i + 1
    // }
    // println(s)
    let program = vec![
        set("i", whole("0")),
        set("s", whole("0")),
        Statement::WhileLoop {
            condition: less(read("i"), whole("5")),
            body: vec![
                set("s", plus(read("s"), read("i"))),
                set("i", plus(read("i"), whole("1"))),
            ],
        },
        print_line(read("s")),
    ];
    assert_eq!(written_by(&declare(&program)), "10\n");
}

#[test]
fn a_variable_of_a_loop_is_made_in_every_turn() {
    // i = 0
    // while i < 3 { d = i * 2; i = i + 1; println(d) }
    let program = vec![
        set("i", whole("0")),
        Statement::WhileLoop {
            condition: less(read("i"), whole("3")),
            body: vec![
                set("d", times(read("i"), whole("2"))),
                set("i", plus(read("i"), whole("1"))),
                print_line(read("d")),
            ],
        },
    ];
    assert_eq!(written_by(&declare(&program)), "0\n2\n4\n");
}
