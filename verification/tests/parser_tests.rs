use bare_script::error::ParseError;
use bare_script::eval_parser::parse_expression;
use bare_script::eval_parser::parse_expressions;
use bare_script::eval_parser::parse_str;
use bare_script::eval_parser::str_to_op_no;
use bare_script::eval_parser::EvalValue;
use bare_script::eval_parser::ExprAst;
use bare_script::eval_parser::ParseNode;
use bare_script::eval_parser::Rule;
use bare_script::operators::BinaryOp;
use bare_script::parser::parse_body;
use bare_script::parser::parse_file_data;
use bare_script::parser::parse_statement;
use bare_script::parser::Statement;

fn node(rule: Rule, text: &str, children: Vec<ParseNode>) -> ParseNode {
    ParseNode { rule, text: text.to_string(), children }
}

fn leaf(rule: Rule, text: &str) -> ParseNode {
    node(rule, text, vec![])
}

fn term(inner: ParseNode) -> ParseNode {
    node(Rule::Term, "", vec![inner])
}

fn number(text: &str) -> ParseNode {
    term(leaf(Rule::Integer, text))
}

fn name(text: &str) -> ParseNode {
    term(leaf(Rule::Identifier, text))
}

fn product(children: Vec<ParseNode>) -> ParseNode {
    node(Rule::Product, "", children)
}

fn sum(children: Vec<ParseNode>) -> ParseNode {
    node(Rule::Sum, "", children)
}

fn bare(children: Vec<ParseNode>) -> ParseNode {
    node(Rule::BareExpr, "", children)
}

fn expr(inner: ParseNode) -> ParseNode {
    node(Rule::Expr, "", vec![bare(vec![sum(vec![product(vec![inner])])])])
}

fn expr_of_sum(children: Vec<ParseNode>) -> ParseNode {
    node(Rule::Expr, "", vec![bare(vec![sum(children)])])
}

fn plus() -> ParseNode {
    leaf(Rule::SumOps, "+")
}

fn minus() -> ParseNode {
    leaf(Rule::SumOps, "-")
}

fn times() -> ParseNode {
    leaf(Rule::ProdOps, "*")
}

fn block(statements: Vec<ParseNode>) -> ParseNode {
    node(Rule::Block, "", statements)
}

fn num(text: &str) -> ExprAst {
    ExprAst::Value { val: EvalValue::IntegerLiteral { val: text.to_string() } }
}

fn var(text: &str) -> ExprAst {
    ExprAst::Value { val: EvalValue::Reference { val: text.to_string() } }
}

fn sub(lhs: ExprAst, rhs: ExprAst) -> ExprAst {
    ExprAst::Subtraction { lhs: Box::new(lhs), rhs: Box::new(rhs) }
}

#[test]
fn operator_tokens_name_their_operators() {
    assert_eq!(str_to_op_no("+"), Some(BinaryOp::Add));
    assert_eq!(str_to_op_no("-"), Some(BinaryOp::Sub));
    assert_eq!(str_to_op_no("/"), Some(BinaryOp::Div));
    assert_eq!(str_to_op_no("*"), Some(BinaryOp::Mul));
    assert_eq!(str_to_op_no("=="), Some(BinaryOp::Eq));
    assert_eq!(str_to_op_no("!="), Some(BinaryOp::Neq));
    assert_eq!(str_to_op_no(">="), Some(BinaryOp::GtEq));
    assert_eq!(str_to_op_no("<="), Some(BinaryOp::LtEq));
    assert_eq!(str_to_op_no(">"), Some(BinaryOp::Gt));
    assert_eq!(str_to_op_no("<"), Some(BinaryOp::Lt));
    assert_eq!(str_to_op_no("="), None);
    assert_eq!(str_to_op_no(""), None);
    assert_eq!(str_to_op_no("+ "), None);
}

#[test]
fn escapes_are_resolved_from_the_left() {
    assert_eq!(parse_str("a\\nb"), "a\nb");
    assert_eq!(parse_str("a\\tb"), "a\tb");
    assert_eq!(parse_str("a\\rb"), "a\rb");
    assert_eq!(parse_str("a\\0b"), "a\0b");
    assert_eq!(parse_str("a\\\"b"), "a\"b");
    assert_eq!(parse_str("a\\\\b"), "a\\b");
    assert_eq!(parse_str("plain"), "plain");
    assert_eq!(parse_str(""), "");
}

#[test]
fn a_backslash_after_an_escaped_backslash_starts_an_escape_of_its_own() {
    // Two backslashes and an n: an escaped backslash, then a plain n.
    assert_eq!(parse_str("\\\\n"), "\\n");
    // Three backslashes and an n: an escaped backslash, then an escaped line feed.
    assert_eq!(parse_str("\\\\\\n"), "\\\n");
    // A backslash before a character that is no escape stays.
    assert_eq!(parse_str("\\q"), "\\q");
    // A backslash at the end stays.
    assert_eq!(parse_str("end\\"), "end\\");
    // An escape at the very start is resolved too.
    assert_eq!(parse_str("\\n"), "\n");
}

#[test]
fn literals_and_names_become_leaves() {
    assert_eq!(parse_expression(&leaf(Rule::Integer, "007")), Ok(num("007")));
    assert_eq!(
        parse_expression(&leaf(Rule::Float, "1.50")),
        Ok(ExprAst::Value { val: EvalValue::FloatLiteral { val: "1.50".to_string() } })
    );
    assert_eq!(parse_expression(&leaf(Rule::Identifier, "a.b")), Ok(var("a.b")));
    assert_eq!(
        parse_expression(&leaf(Rule::Boolean, "true")),
        Ok(ExprAst::Value { val: EvalValue::BooleanLiteral { val: true } })
    );
    assert_eq!(
        parse_expression(&leaf(Rule::Boolean, "false")),
        Ok(ExprAst::Value { val: EvalValue::BooleanLiteral { val: false } })
    );
    assert_eq!(
        parse_expression(&leaf(Rule::String, "\"a\\n\\\"b\\\"\"")),
        Ok(ExprAst::Value { val: EvalValue::Stringliteral { val: "a\n\"b\"".to_string() } })
    );
    assert_eq!(
        parse_expression(&leaf(Rule::String, "\"\"")),
        Ok(ExprAst::Value { val: EvalValue::Stringliteral { val: "".to_string() } })
    );
}

#[test]
fn a_string_token_needs_its_two_quotes() {
    assert_eq!(parse_expression(&leaf(Rule::String, "\"")), Err(ParseError::Malformed));
    assert_eq!(parse_expression(&leaf(Rule::String, "")), Err(ParseError::Malformed));
}

#[test]
fn wrappers_are_their_last_child() {
    assert_eq!(parse_expression(&expr(number("1"))), Ok(num("1")));
    assert_eq!(
        parse_expression(&node(Rule::Expr, "", vec![leaf(Rule::Comment, "#"), number("2")])),
        Ok(num("2"))
    );
    assert_eq!(parse_expression(&node(Rule::Expr, "", vec![])), Err(ParseError::Malformed));
    assert_eq!(parse_expression(&node(Rule::Term, "", vec![])), Err(ParseError::Malformed));
    // A term may hold a whole expression, as between parentheses.
    assert_eq!(parse_expression(&term(expr(name("x")))), Ok(var("x")));
}

#[test]
fn a_tier_folds_from_the_left() {
    // a - b - c is (a - b) - c.
    let tree = expr_of_sum(vec![
        product(vec![name("a")]),
        minus(),
        product(vec![name("b")]),
        minus(),
        product(vec![name("c")]),
    ]);
    assert_eq!(
        parse_expression(&tree),
        Ok(sub(sub(var("a"), var("b")), var("c")))
    );
    // a - b + c - d is ((a - b) + c) - d.
    let tree = expr_of_sum(vec![
        product(vec![name("a")]),
        minus(),
        product(vec![name("b")]),
        plus(),
        product(vec![name("c")]),
        minus(),
        product(vec![name("d")]),
    ]);
    assert_eq!(
        parse_expression(&tree),
        Ok(sub(
            ExprAst::Addition { lhs: Box::new(sub(var("a"), var("b"))), rhs: Box::new(var("c")) },
            var("d")
        ))
    );
}

#[test]
fn the_nesting_of_the_tiers_gives_the_precedence() {
    // 1 + 2 * 3 is 1 + (2 * 3).
    let tree = expr_of_sum(vec![
        product(vec![number("1")]),
        plus(),
        product(vec![number("2"), times(), number("3")]),
    ]);
    assert_eq!(
        parse_expression(&tree),
        Ok(ExprAst::Addition {
            lhs: Box::new(num("1")),
            rhs: Box::new(ExprAst::Multiplication {
                lhs: Box::new(num("2")),
                rhs: Box::new(num("3"))
            })
        })
    );
}

#[test]
fn comparisons_fold_like_the_other_tiers() {
    let side = |n: &str| sum(vec![product(vec![name(n)])]);
    let tree = node(
        Rule::Expr,
        "",
        vec![bare(vec![
            side("a"),
            leaf(Rule::EqOps, "<"),
            side("b"),
            leaf(Rule::EqOps, "=="),
            side("c"),
        ])],
    );
    assert_eq!(
        parse_expression(&tree),
        Ok(ExprAst::Eq {
            lhs: Box::new(ExprAst::Lt { lhs: Box::new(var("a")), rhs: Box::new(var("b")) }),
            rhs: Box::new(var("c"))
        })
    );
    for (token, expected) in [
        ("==", BinaryOp::Eq),
        ("!=", BinaryOp::Neq),
        (">=", BinaryOp::GtEq),
        ("<=", BinaryOp::LtEq),
        (">", BinaryOp::Gt),
        ("<", BinaryOp::Lt),
    ] {
        let tree = bare(vec![side("a"), leaf(Rule::EqOps, token), side("b")]);
        let built = parse_expression(&tree).unwrap();
        let (lhs, rhs) = (Box::new(var("a")), Box::new(var("b")));
        let wanted = match expected {
            BinaryOp::Eq => ExprAst::Eq { lhs, rhs },
            BinaryOp::Neq => ExprAst::Neq { lhs, rhs },
            BinaryOp::GtEq => ExprAst::GtEq { lhs, rhs },
            BinaryOp::LtEq => ExprAst::LtEq { lhs, rhs },
            BinaryOp::Gt => ExprAst::Gt { lhs, rhs },
            _ => ExprAst::Lt { lhs, rhs },
        };
        assert_eq!(built, wanted);
    }
}

#[test]
fn a_tier_of_another_shape_is_malformed() {
    let a = || product(vec![name("a")]);
    assert_eq!(parse_expression(&sum(vec![])), Err(ParseError::Malformed));
    assert_eq!(parse_expression(&sum(vec![a(), plus()])), Err(ParseError::Malformed));
    assert_eq!(parse_expression(&sum(vec![a(), a(), a()])), Err(ParseError::Malformed));
    assert_eq!(parse_expression(&sum(vec![plus(), a(), plus()])), Err(ParseError::Malformed));
    assert_eq!(parse_expression(&sum(vec![a(), plus(), plus()])), Err(ParseError::Malformed));
    assert_eq!(
        parse_expression(&sum(vec![a(), leaf(Rule::SumOps, "%"), a()])),
        Err(ParseError::Malformed)
    );
    assert_eq!(
        parse_expression(&sum(vec![a(), times(), a()])),
        Err(ParseError::Malformed)
    );
    assert_eq!(parse_expression(&leaf(Rule::Block, "")), Err(ParseError::Malformed));
    assert_eq!(parse_expression(&leaf(Rule::SumOps, "+")), Err(ParseError::Malformed));
}

#[test]
fn calls_and_lists_hold_expressions() {
    let call = node(
        Rule::FunctionCall,
        "f(1, x)",
        vec![leaf(Rule::Identifier, "f"), expr(number("1")), expr(name("x"))],
    );
    assert_eq!(
        parse_expression(&call),
        Ok(ExprAst::FunctionCall { name: "f".to_string(), args: vec![num("1"), var("x")] })
    );
    let bare_call = node(Rule::FunctionCall, "g()", vec![leaf(Rule::Identifier, "g")]);
    assert_eq!(
        parse_expression(&bare_call),
        Ok(ExprAst::FunctionCall { name: "g".to_string(), args: vec![] })
    );
    assert_eq!(
        parse_expression(&node(Rule::FunctionCall, "", vec![])),
        Err(ParseError::Malformed)
    );
    let list = node(Rule::List, "[1, x]", vec![expr(number("1")), expr(name("x"))]);
    assert_eq!(
        parse_expression(&list),
        Ok(ExprAst::Value { val: EvalValue::List { val: vec![num("1"), var("x")] } })
    );
    assert_eq!(
        parse_expression(&node(Rule::List, "[]", vec![])),
        Ok(ExprAst::Value { val: EvalValue::List { val: vec![] } })
    );
    assert_eq!(
        parse_expression(&node(Rule::List, "", vec![leaf(Rule::Block, "")])),
        Err(ParseError::Malformed)
    );
}

#[test]
fn expressions_are_read_up_to_the_end_of_the_input() {
    let nodes = vec![
        expr(number("1")),
        expr(name("x")),
        leaf(Rule::EOI, ""),
        leaf(Rule::Block, "never looked at"),
    ];
    assert_eq!(parse_expressions(&nodes), Ok(vec![num("1"), var("x")]));
    assert_eq!(parse_expressions(&vec![]), Ok(vec![]));
    assert_eq!(
        parse_expressions(&vec![expr(number("1")), leaf(Rule::Block, "")]),
        Err(ParseError::Malformed)
    );
    assert_eq!(
        parse_expressions(&vec![number("1")]),
        Err(ParseError::Malformed)
    );
}

#[test]
fn assignments_take_a_name_and_a_value() {
    let tree = node(
        Rule::VariableAssignment,
        "x = 1",
        vec![leaf(Rule::Identifier, "x"), expr(number("1"))],
    );
    assert_eq!(
        parse_statement(&tree),
        Ok(Some(Statement::VariableAssignment { name: "x".to_string(), value: num("1") }))
    );
    let tree = node(
        Rule::VariableReassignment,
        "p.x = 1",
        vec![leaf(Rule::Identifier, "p.x"), expr(number("1"))],
    );
    assert_eq!(
        parse_statement(&tree),
        Ok(Some(Statement::VariableReassignment { name: "p.x".to_string(), value: num("1") }))
    );
    let tree = node(
        Rule::VariableMultiAssignment,
        "a, b = f()",
        vec![
            leaf(Rule::Identifier, "a"),
            leaf(Rule::Identifier, "b"),
            expr(term(node(Rule::FunctionCall, "f()", vec![leaf(Rule::Identifier, "f")]))),
        ],
    );
    assert_eq!(
        parse_statement(&tree),
        Ok(Some(Statement::VariableMultiAssignment {
            variables: vec!["a".to_string(), "b".to_string()],
            value: ExprAst::FunctionCall { name: "f".to_string(), args: vec![] }
        }))
    );
}

#[test]
fn a_new_variable_has_no_period_in_its_name() {
    let tree = node(
        Rule::VariableAssignment,
        "p.x = 1",
        vec![leaf(Rule::Identifier, "p.x"), expr(number("1"))],
    );
    assert_eq!(parse_statement(&tree), Err(ParseError::DottedName));
    let tree = node(
        Rule::VariableMultiAssignment,
        "",
        vec![leaf(Rule::Identifier, "a"), leaf(Rule::Identifier, "b.c"), expr(number("1"))],
    );
    assert_eq!(parse_statement(&tree), Err(ParseError::DottedName));
    // The name is looked at before the value.
    let tree = node(
        Rule::VariableAssignment,
        "",
        vec![leaf(Rule::Identifier, "p.x"), leaf(Rule::Block, "")],
    );
    assert_eq!(parse_statement(&tree), Err(ParseError::DottedName));
}

#[test]
fn statements_of_another_shape_are_malformed() {
    assert_eq!(
        parse_statement(&node(Rule::VariableAssignment, "", vec![])),
        Err(ParseError::Malformed)
    );
    assert_eq!(
        parse_statement(&node(Rule::VariableAssignment, "", vec![leaf(Rule::Identifier, "x")])),
        Err(ParseError::Malformed)
    );
    assert_eq!(
        parse_statement(&node(
            Rule::VariableMultiAssignment,
            "",
            vec![leaf(Rule::Identifier, "a"), leaf(Rule::Identifier, "b")]
        )),
        Err(ParseError::Malformed)
    );
    assert_eq!(
        parse_statement(&node(Rule::VariableReassignment, "", vec![leaf(Rule::Identifier, "x")])),
        Err(ParseError::Malformed)
    );
    assert_eq!(
        parse_statement(&node(Rule::FunctionCallStatement, "", vec![])),
        Err(ParseError::Malformed)
    );
    assert_eq!(
        parse_statement(&node(Rule::WhileLoop, "", vec![expr(number("1"))])),
        Err(ParseError::Malformed)
    );
    assert_eq!(
        parse_statement(&node(Rule::Conditional, "", vec![])),
        Err(ParseError::Malformed)
    );
    assert_eq!(
        parse_statement(&node(Rule::FunctionDeclaration, "", vec![leaf(Rule::Identifier, "f")])),
        Err(ParseError::Malformed)
    );
    assert_eq!(
        parse_statement(&node(
            Rule::FunctionDeclaration,
            "",
            vec![leaf(Rule::Identifier, "f"), expr(number("1")), block(vec![])]
        )),
        Err(ParseError::Malformed)
    );
    assert_eq!(
        parse_statement(&node(Rule::ClassDeclaration, "", vec![])),
        Err(ParseError::Malformed)
    );
    assert_eq!(parse_statement(&expr(number("1"))), Err(ParseError::Malformed));
    assert_eq!(parse_statement(&leaf(Rule::EOI, "")), Err(ParseError::Malformed));
}

#[test]
fn the_simple_statements() {
    assert_eq!(parse_statement(&leaf(Rule::BreakKw, "break")), Ok(Some(Statement::Break)));
    assert_eq!(
        parse_statement(&leaf(Rule::ContinueKw, "continue")),
        Ok(Some(Statement::Continue))
    );
    assert_eq!(parse_statement(&leaf(Rule::Comment, "# note")), Ok(None));
    assert_eq!(
        parse_statement(&node(
            Rule::ReturnKw,
            "return 1, x",
            vec![expr(number("1")), expr(name("x"))]
        )),
        Ok(Some(Statement::Return { returns: vec![num("1"), var("x")] }))
    );
    assert_eq!(
        parse_statement(&leaf(Rule::ReturnKw, "return")),
        Ok(Some(Statement::Return { returns: vec![] }))
    );
    let call = node(
        Rule::FunctionCallStatement,
        "f(1)",
        vec![node(
            Rule::FunctionCall,
            "f(1)",
            vec![leaf(Rule::Identifier, "f"), expr(number("1"))],
        )],
    );
    assert_eq!(
        parse_statement(&call),
        Ok(Some(Statement::FunctionCall { name: "f".to_string(), args: vec![num("1")] }))
    );
    let class = node(
        Rule::ClassDeclaration,
        "class Point(x, y)",
        vec![
            leaf(Rule::Identifier, "Point"),
            leaf(Rule::Identifier, "x"),
            leaf(Rule::Identifier, "y"),
        ],
    );
    assert_eq!(
        parse_statement(&class),
        Ok(Some(Statement::ClassDeclaration {
            class_name: "Point".to_string(),
            members: vec!["x".to_string(), "y".to_string()]
        }))
    );
}

#[test]
fn a_conditional_has_branches_and_an_else() {
    let guarded = |rule: Rule, condition: &str| {
        node(rule, "", vec![expr(name(condition)), block(vec![leaf(Rule::BreakKw, "break")])])
    };
    let tree = node(
        Rule::Conditional,
        "",
        vec![
            guarded(Rule::ConditionalIf, "a"),
            guarded(Rule::ConditionalElseIf, "b"),
            guarded(Rule::ConditionalElseIf, "c"),
            node(
                Rule::ConditionalElse,
                "",
                vec![block(vec![leaf(Rule::ContinueKw, "continue")])],
            ),
        ],
    );
    assert_eq!(
        parse_statement(&tree),
        Ok(Some(Statement::Conditional {
            condition: var("a"),
            body: vec![Statement::Break],
            else_if_conditions: vec![
                (var("b"), vec![Statement::Break]),
                (var("c"), vec![Statement::Break])
            ],
            else_body: Some(vec![Statement::Continue]),
        }))
    );
    let only_if = node(Rule::Conditional, "", vec![guarded(Rule::ConditionalIf, "a")]);
    assert_eq!(
        parse_statement(&only_if),
        Ok(Some(Statement::Conditional {
            condition: var("a"),
            body: vec![Statement::Break],
            else_if_conditions: vec![],
            else_body: None,
        }))
    );
    let stray = node(
        Rule::Conditional,
        "",
        vec![guarded(Rule::ConditionalIf, "a"), leaf(Rule::BreakKw, "break")],
    );
    assert_eq!(parse_statement(&stray), Err(ParseError::Malformed));
}

#[test]
fn what_follows_an_else_does_not_count() {
    let guarded = |rule: Rule, condition: &str| {
        node(rule, "", vec![expr(name(condition)), block(vec![])])
    };
    let tree = node(
        Rule::Conditional,
        "",
        vec![
            guarded(Rule::ConditionalIf, "a"),
            node(Rule::ConditionalElse, "", vec![block(vec![])]),
            leaf(Rule::Block, "stray"),
        ],
    );
    assert_eq!(
        parse_statement(&tree),
        Ok(Some(Statement::Conditional {
            condition: var("a"),
            body: vec![],
            else_if_conditions: vec![],
            else_body: Some(vec![]),
        }))
    );
}

#[test]
fn loops_and_functions_hold_blocks() {
    let tree = node(
        Rule::WhileLoop,
        "",
        vec![
            expr(name("go")),
            block(vec![leaf(Rule::Comment, "#"), leaf(Rule::BreakKw, "break")]),
        ],
    );
    assert_eq!(
        parse_statement(&tree),
        Ok(Some(Statement::WhileLoop { condition: var("go"), body: vec![Statement::Break] }))
    );
    let tree = node(
        Rule::FunctionDeclaration,
        "",
        vec![
            leaf(Rule::Identifier, "f"),
            leaf(Rule::Identifier, "a"),
            leaf(Rule::Identifier, "b"),
            block(vec![node(Rule::ReturnKw, "", vec![expr(name("a"))])]),
        ],
    );
    assert_eq!(
        parse_statement(&tree),
        Ok(Some(Statement::FunctionDefinition {
            name: "f".to_string(),
            args: vec!["a".to_string(), "b".to_string()],
            body: vec![Statement::Return { returns: vec![var("a")] }],
        }))
    );
    let tree = node(
        Rule::FunctionDeclaration,
        "",
        vec![leaf(Rule::Identifier, "f"), block(vec![])],
    );
    assert_eq!(
        parse_statement(&tree),
        Ok(Some(Statement::FunctionDefinition {
            name: "f".to_string(),
            args: vec![],
            body: vec![],
        }))
    );
}

#[test]
fn a_body_skips_comments_and_stops_at_the_first_error() {
    let nodes = vec![
        leaf(Rule::Comment, "#"),
        leaf(Rule::BreakKw, "break"),
        leaf(Rule::Comment, "#"),
        leaf(Rule::ContinueKw, "continue"),
    ];
    assert_eq!(parse_body(&nodes), Ok(vec![Statement::Break, Statement::Continue]));
    assert_eq!(parse_body(&vec![]), Ok(vec![]));
    let nodes = vec![
        leaf(Rule::BreakKw, "break"),
        node(Rule::VariableAssignment, "", vec![leaf(Rule::Identifier, "a.b")]),
        leaf(Rule::Block, "malformed too"),
    ];
    assert_eq!(parse_body(&nodes), Err(ParseError::DottedName));
    let nodes = vec![leaf(Rule::EOI, "")];
    assert_eq!(parse_body(&nodes), Err(ParseError::Malformed));
}

#[test]
fn a_file_ends_at_the_end_of_its_input() {
    let nodes = vec![
        leaf(Rule::BreakKw, "break"),
        leaf(Rule::EOI, ""),
        leaf(Rule::Block, "never looked at"),
    ];
    assert_eq!(parse_file_data(&nodes), Ok(vec![Statement::Break]));
    assert_eq!(parse_file_data(&vec![leaf(Rule::EOI, "")]), Ok(vec![]));
    assert_eq!(parse_file_data(&vec![]), Ok(vec![]));
    assert_eq!(
        parse_file_data(&vec![leaf(Rule::Block, ""), leaf(Rule::EOI, "")]),
        Err(ParseError::Malformed)
    );
}
