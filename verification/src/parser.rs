//! Statements, and the builder that turns the nodes of the parse tree into statements.

use crate::error::ParseError;
use crate::eval_parser::build;
use crate::eval_parser::build_all;
use crate::eval_parser::build_children;
use crate::eval_parser::expr_model;
use crate::eval_parser::node_model;
use crate::eval_parser::nodes_model;
use crate::eval_parser::parse_expression;
use crate::eval_parser::ParseNode;
use crate::eval_parser::ParseNodeModel;
use crate::eval_parser::Rule;
use crate::text::contains_dot;
use crate::text::has_dot;
use crate::eval_parser::exprs_model;
use crate::eval_parser::ExprAst;
use crate::eval_parser::ExprModel;
use crate::value::names_model;
use vstd::prelude::*;

verus! {

broadcast use vstd::std_specs::vec::group_vec_axioms;

/// The statements between two braces, or of the whole program.
pub type Block = Vec<Statement>;

/// A statement.
#[derive(Debug, PartialEq)]
pub enum Statement {
    VariableAssignment { name: String, value: ExprAst },
    VariableMultiAssignment { variables: Vec<String>, value: ExprAst },
    VariableReassignment { name: String, value: ExprAst },
    FunctionCall { name: String, args: Vec<ExprAst> },
    FunctionDefinition { name: String, args: Vec<String>, body: Block },
    Conditional {
        condition: ExprAst,
        body: Block,
        else_if_conditions: Vec<(ExprAst, Block)>,
        else_body: Option<Block>,
    },
    ForLoop { var_name: String, start: ExprAst, end: ExprAst, body: Block },
    WhileLoop { condition: ExprAst, body: Block },
    Break,
    Continue,
    Return { returns: Vec<ExprAst> },
    ClassDeclaration { class_name: String, members: Vec<String> },
}

/// A [`Statement`] as a mathematical value.
pub enum StatementModel {
    VariableAssignment { name: Seq<char>, value: ExprModel },
    VariableMultiAssignment { variables: Seq<Seq<char>>, value: ExprModel },
    VariableReassignment { name: Seq<char>, value: ExprModel },
    FunctionCall { name: Seq<char>, args: Seq<ExprModel> },
    FunctionDefinition { name: Seq<char>, args: Seq<Seq<char>>, body: Seq<StatementModel> },
    Conditional {
        condition: ExprModel,
        body: Seq<StatementModel>,
        else_if_conditions: Seq<(ExprModel, Seq<StatementModel>)>,
        else_body: Option<Seq<StatementModel>>,
    },
    ForLoop { var_name: Seq<char>, start: ExprModel, end: ExprModel, body: Seq<StatementModel> },
    WhileLoop { condition: ExprModel, body: Seq<StatementModel> },
    Break,
    Continue,
    Return { returns: Seq<ExprModel> },
    ClassDeclaration { class_name: Seq<char>, members: Seq<Seq<char>> },
}

/// The statement `s` as a mathematical value.
pub open spec fn statement_model(s: Statement) -> StatementModel
    decreases s,
{
    match s {
        Statement::VariableAssignment { name, value } => StatementModel::VariableAssignment {
            name: name@,
            value: expr_model(value),
        },
        Statement::VariableMultiAssignment {
            variables,
            value,
        } => StatementModel::VariableMultiAssignment {
            variables: names_model(variables@),
            value: expr_model(value),
        },
        Statement::VariableReassignment { name, value } => StatementModel::VariableReassignment {
            name: name@,
            value: expr_model(value),
        },
        Statement::FunctionCall { name, args } => StatementModel::FunctionCall {
            name: name@,
            args: exprs_model(args@),
        },
        Statement::FunctionDefinition { name, args, body } => StatementModel::FunctionDefinition {
            name: name@,
            args: names_model(args@),
            body: block_model(body@),
        },
        Statement::Conditional {
            condition,
            body,
            else_if_conditions,
            else_body,
        } => StatementModel::Conditional {
            condition: expr_model(condition),
            body: block_model(body@),
            else_if_conditions: branches_model(else_if_conditions@),
            else_body: match else_body {
                Some(b) => Some(block_model(b@)),
                None => None,
            },
        },
        Statement::ForLoop { var_name, start, end, body } => StatementModel::ForLoop {
            var_name: var_name@,
            start: expr_model(start),
            end: expr_model(end),
            body: block_model(body@),
        },
        Statement::WhileLoop { condition, body } => StatementModel::WhileLoop {
            condition: expr_model(condition),
            body: block_model(body@),
        },
        Statement::Break => StatementModel::Break,
        Statement::Continue => StatementModel::Continue,
        Statement::Return { returns } => StatementModel::Return { returns: exprs_model(returns@) },
        Statement::ClassDeclaration { class_name, members } => StatementModel::ClassDeclaration {
            class_name: class_name@,
            members: names_model(members@),
        },
    }
}

/// The statements of `b` as mathematical values.
pub open spec fn block_model(b: Seq<Statement>) -> Seq<StatementModel>
    decreases b,
{
    Seq::new(
        b.len(),
        |i: int|
            if 0 <= i < b.len() {
                statement_model(b[i])
            } else {
                arbitrary()
            },
    )
}

/// The `else if` branches of `b` as mathematical values.
pub open spec fn branches_model(b: Seq<(ExprAst, Block)>) -> Seq<(ExprModel, Seq<StatementModel>)>
    decreases b,
{
    Seq::new(
        b.len(),
        |i: int|
            if 0 <= i < b.len() {
                (expr_model(b[i].0), block_model(b[i].1@))
            } else {
                arbitrary()
            },
    )
}

impl View for Statement {
    type V = StatementModel;

    open spec fn view(&self) -> StatementModel {
        statement_model(*self)
    }
}



/// The texts of the children of index `from` up to `n`, in order.
pub open spec fn texts(children: Seq<ParseNodeModel>, from: int, n: int) -> Seq<Seq<char>> {
    Seq::new((n - from) as nat, |i: int| children[from + i].text)
}

/// The index of the first child at or after `from` that is no identifier; the number of
/// children where there is none.
pub open spec fn first_other(children: Seq<ParseNodeModel>, from: int) -> int
    decreases children.len() - from,
{
    if from < 0 || from >= children.len() {
        children.len() as int
    } else if children[from].rule != Rule::Identifier {
        from
    } else {
        first_other(children, from + 1)
    }
}

/// The index of the first child at or after `from` and before `to` whose text has a period
/// in it; `to` where there is none.
pub open spec fn first_dotted(children: Seq<ParseNodeModel>, from: int, to: int) -> int
    decreases to - from,
{
    if from < 0 || from >= to || from >= children.len() {
        to
    } else if has_dot(children[from].text) {
        from
    } else {
        first_dotted(children, from + 1, to)
    }
}

/// The expression of `node`, or the error that it is malformed.
pub open spec fn expression_of(node: ParseNodeModel) -> Result<ExprModel, ParseError> {
    match build(node) {
        Some(e) => Ok(e),
        None => Err(ParseError::Malformed),
    }
}

/// The statement of an assignment: the first child is the name, which must have no period
/// in it, and the second is the value.
pub open spec fn assignment_of(node: ParseNodeModel) -> Result<StatementModel, ParseError> {
    if node.children.len() < 1 {
        Err(ParseError::Malformed)
    } else if has_dot(node.children[0].text) {
        Err(ParseError::DottedName)
    } else if node.children.len() < 2 {
        Err(ParseError::Malformed)
    } else {
        match expression_of(node.children[1]) {
            Ok(value) => Ok(StatementModel::VariableAssignment { name: node.children[0].text, value }),
            Err(e) => Err(e),
        }
    }
}

/// The statement of a multiple assignment: the identifiers up to the first child that is
/// none are the names, none of which may have a period in it, and that child is the value.
pub open spec fn multi_assignment_of(node: ParseNodeModel) -> Result<StatementModel, ParseError> {
    let k = first_other(node.children, 0);
    if first_dotted(node.children, 0, k) < k {
        Err(ParseError::DottedName)
    } else if k >= node.children.len() {
        Err(ParseError::Malformed)
    } else {
        match expression_of(node.children[k]) {
            Ok(value) => Ok(
                StatementModel::VariableMultiAssignment { variables: texts(node.children, 0, k), value },
            ),
            Err(e) => Err(e),
        }
    }
}

/// The statement of a reassignment: the first child is the name and the second the value.
pub open spec fn reassignment_of(node: ParseNodeModel) -> Result<StatementModel, ParseError> {
    if node.children.len() < 2 {
        Err(ParseError::Malformed)
    } else {
        match expression_of(node.children[1]) {
            Ok(value) => Ok(
                StatementModel::VariableReassignment { name: node.children[0].text, value },
            ),
            Err(e) => Err(e),
        }
    }
}

/// The statement of a call statement: its only child is the call, whose first child is the
/// name and whose other children are the arguments.
pub open spec fn call_statement_of(node: ParseNodeModel) -> Result<StatementModel, ParseError> {
    if node.children.len() < 1 || node.children[0].children.len() < 1 {
        Err(ParseError::Malformed)
    } else {
        let inner = node.children[0].children;
        match build_all(inner, 1, inner.len() as int) {
            Some(args) => Ok(StatementModel::FunctionCall { name: inner[0].text, args }),
            None => Err(ParseError::Malformed),
        }
    }
}

/// The statement of a `return`: its children are the values.
pub open spec fn return_of(node: ParseNodeModel) -> Result<StatementModel, ParseError> {
    match build_all(node.children, 0, node.children.len() as int) {
        Some(values) => Ok(StatementModel::Return { returns: values }),
        None => Err(ParseError::Malformed),
    }
}

/// The statement of a class declaration: the first child is the name of the class, the
/// others are the names of its members.
pub open spec fn class_of(node: ParseNodeModel) -> Result<StatementModel, ParseError> {
    if node.children.len() < 1 {
        Err(ParseError::Malformed)
    } else {
        Ok(
            StatementModel::ClassDeclaration {
                class_name: node.children[0].text,
                members: texts(node.children, 1, node.children.len() as int),
            },
        )
    }
}

/// A condition and the block under it: the first two children of `node`.
pub open spec fn guarded_of(node: ParseNodeModel) -> Result<(ExprModel, Seq<StatementModel>), ParseError>
    decreases node, 0int,
{
    if node.children.len() < 2 {
        Err(ParseError::Malformed)
    } else {
        match expression_of(node.children[0]) {
            Err(e) => Err(e),
            Ok(condition) => match body_of(node.children[1].children, node.children[1].children.len() as int) {
                Err(e) => Err(e),
                Ok(body) => Ok((condition, body)),
            },
        }
    }
}

/// The `else if` branches and the `else` body among the children of a conditional from
/// the second up to the `n`th. What follows an `else` does not count.
pub open spec fn branches_of(children: Seq<ParseNodeModel>, n: int) -> Result<
    (Seq<(ExprModel, Seq<StatementModel>)>, Option<Seq<StatementModel>>),
    ParseError,
>
    decreases children, n,
{
    if n <= 1 || n > children.len() {
        Ok((Seq::empty(), None))
    } else {
        match branches_of(children, n - 1) {
            Err(e) => Err(e),
            Ok((branches, Some(last))) => Ok((branches, Some(last))),
            Ok((branches, None)) => if children[n - 1].rule == Rule::ConditionalElseIf {
                match guarded_of(children[n - 1]) {
                    Ok(branch) => Ok((branches.push(branch), None)),
                    Err(e) => Err(e),
                }
            } else if children[n - 1].rule == Rule::ConditionalElse {
                if children[n - 1].children.len() < 1 {
                    Err(ParseError::Malformed)
                } else {
                    match body_of(
                        children[n - 1].children[0].children,
                        children[n - 1].children[0].children.len() as int,
                    ) {
                        Ok(body) => Ok((branches, Some(body))),
                        Err(e) => Err(e),
                    }
                }
            } else {
                Err(ParseError::Malformed)
            },
        }
    }
}

/// The statement of a conditional: the first child holds the condition and the body, the
/// others are the `else if` branches and the `else` body.
pub open spec fn conditional_of(node: ParseNodeModel) -> Result<StatementModel, ParseError>
    decreases node, 1int,
{
    if node.children.len() < 1 {
        Err(ParseError::Malformed)
    } else {
        match guarded_of(node.children[0]) {
            Err(e) => Err(e),
            Ok((condition, body)) => match branches_of(node.children, node.children.len() as int) {
                Err(e) => Err(e),
                Ok((else_if_conditions, else_body)) => Ok(
                    StatementModel::Conditional { condition, body, else_if_conditions, else_body },
                ),
            },
        }
    }
}

/// The statement of a loop: the first child is the condition, the second the body.
pub open spec fn while_of(node: ParseNodeModel) -> Result<StatementModel, ParseError>
    decreases node, 1int,
{
    match guarded_of(node) {
        Ok((condition, body)) => Ok(StatementModel::WhileLoop { condition, body }),
        Err(e) => Err(e),
    }
}

/// The statement of a function declaration: the first child is the name, the identifiers
/// after it are the parameters, and the block after them is the body.
pub open spec fn function_of(node: ParseNodeModel) -> Result<StatementModel, ParseError>
    decreases node, 1int,
{
    if node.children.len() < 1 {
        Err(ParseError::Malformed)
    } else {
        let k = first_other(node.children, 1);
        if 1 <= k < node.children.len() && node.children[k].rule == Rule::Block {
            match body_of(node.children[k].children, node.children[k].children.len() as int) {
                Ok(body) => Ok(
                    StatementModel::FunctionDefinition {
                        name: node.children[0].text,
                        args: texts(node.children, 1, k),
                        body,
                    },
                ),
                Err(e) => Err(e),
            }
        } else {
            Err(ParseError::Malformed)
        }
    }
}

/// The statement that a node of the parse tree stands for; none for a comment.
pub open spec fn statement_of(node: ParseNodeModel) -> Result<Option<StatementModel>, ParseError>
    decreases node, 2int,
{
    let one = match node.rule {
        Rule::VariableAssignment => assignment_of(node),
        Rule::VariableMultiAssignment => multi_assignment_of(node),
        Rule::VariableReassignment => reassignment_of(node),
        Rule::FunctionCallStatement => call_statement_of(node),
        Rule::Conditional => conditional_of(node),
        Rule::WhileLoop => while_of(node),
        Rule::BreakKw => Ok(StatementModel::Break),
        Rule::ContinueKw => Ok(StatementModel::Continue),
        Rule::ReturnKw => return_of(node),
        Rule::FunctionDeclaration => function_of(node),
        Rule::ClassDeclaration => class_of(node),
        _ => Err(ParseError::Malformed),
    };
    if node.rule == Rule::Comment {
        Ok(None)
    } else {
        match one {
            Ok(s) => Ok(Some(s)),
            Err(e) => Err(e),
        }
    }
}

/// The statements of the first `n` of `nodes`, in order; comments leave none.
pub open spec fn body_of(nodes: Seq<ParseNodeModel>, n: int) -> Result<Seq<StatementModel>, ParseError>
    decreases nodes, n,
{
    if n <= 0 || n > nodes.len() {
        Ok(Seq::empty())
    } else {
        match body_of(nodes, n - 1) {
            Err(e) => Err(e),
            Ok(before) => match statement_of(nodes[n - 1]) {
                Err(e) => Err(e),
                Ok(Some(s)) => Ok(before.push(s)),
                Ok(None) => Ok(before),
            },
        }
    }
}

/// The number of nodes of a file before the end of its input.
pub open spec fn end_of_input(nodes: Seq<ParseNodeModel>, from: int) -> int
    decreases nodes.len() - from,
{
    if from < 0 || from >= nodes.len() {
        nodes.len() as int
    } else if nodes[from].rule == Rule::EOI {
        from
    } else {
        end_of_input(nodes, from + 1)
    }
}

/// The statements of a file: those of its nodes up to the end of the input.
pub open spec fn file_of(nodes: Seq<ParseNodeModel>) -> Result<Seq<StatementModel>, ParseError> {
    body_of(nodes, end_of_input(nodes, 0))
}



/// Whether `r` is what `expected` says: the statement, or the error.
pub open spec fn parsed(expected: Result<StatementModel, ParseError>, r: Result<Statement, ParseError>) -> bool {
    match expected {
        Ok(s) => r matches Ok(x) && x@ == s,
        Err(e) => r matches Err(x) && x == e,
    }
}

/// Whether `r` is what `expected` says: the statements, or the error.
pub open spec fn parsed_all(
    expected: Result<Seq<StatementModel>, ParseError>,
    r: Result<Vec<Statement>, ParseError>,
) -> bool {
    match expected {
        Ok(s) => r matches Ok(x) && block_model(x@) == s,
        Err(e) => r matches Err(x) && x == e,
    }
}

fn expression(node: &ParseNode) -> (r: Result<ExprAst, ParseError>)
    ensures
        match expression_of(node@) {
            Ok(e) => r matches Ok(x) && x@ == e,
            Err(e) => r matches Err(x) && x == e,
        },
{
    proof {
        reveal_with_fuel(node_model, 3);
        reveal_with_fuel(nodes_model, 3);
    }
    parse_expression(node)
}

fn texts_of(children: &Vec<ParseNode>, from: usize, to: usize) -> (r: Vec<String>)
    requires
        from <= to <= children.len(),
    ensures
        names_model(r@) == texts(nodes_model(children@), from as int, to as int),
{
    proof {
        reveal_with_fuel(node_model, 3);
        reveal_with_fuel(nodes_model, 3);
    }
    let mut out: Vec<String> = Vec::new();
    let mut i: usize = from;
    assert(names_model(out@) =~= texts(nodes_model(children@), from as int, from as int));
    while i < to
        invariant
            from <= i <= to <= children.len(),
            names_model(out@) == texts(nodes_model(children@), from as int, i as int),
        decreases to - i,
    {
        let ghost before = out@;
        let name = children[i].text.clone();
        out.push(name);
        i += 1;
        assert(out@ == before.push(name));
        assert(names_model(before.push(name)) =~= names_model(before).push(name@));
        assert(nodes_model(children@)[i - 1].text == name@);
        assert(texts(nodes_model(children@), from as int, i as int) =~= texts(
            nodes_model(children@),
            from as int,
            i - 1,
        ).push(name@));
    }
    out
}

fn find_other(children: &Vec<ParseNode>, from: usize) -> (r: usize)
    requires
        from <= children.len(),
    ensures
        r == first_other(nodes_model(children@), from as int),
        from <= r <= children.len(),
{
    proof {
        reveal_with_fuel(node_model, 3);
        reveal_with_fuel(nodes_model, 3);
    }
    let mut i: usize = from;
    while i < children.len()
        invariant
            from <= i <= children.len(),
            first_other(nodes_model(children@), from as int) == first_other(
                nodes_model(children@),
                i as int,
            ),
        decreases children.len() - i,
    {
        if children[i].rule != Rule::Identifier {
            return i;
        }
        i += 1;
    }
    i
}

fn find_dotted(children: &Vec<ParseNode>, to: usize) -> (r: usize)
    requires
        to <= children.len(),
    ensures
        r == first_dotted(nodes_model(children@), 0, to as int),
        r <= to,
{
    proof {
        reveal_with_fuel(node_model, 3);
        reveal_with_fuel(nodes_model, 3);
    }
    let mut i: usize = 0;
    while i < to
        invariant
            i <= to <= children.len(),
            first_dotted(nodes_model(children@), 0, to as int) == first_dotted(
                nodes_model(children@),
                i as int,
                to as int,
            ),
        decreases to - i,
    {
        if contains_dot(children[i].text.as_str()) {
            return i;
        }
        i += 1;
    }
    to
}

fn parse_assignment(node: &ParseNode) -> (r: Result<Statement, ParseError>)
    ensures
        parsed(assignment_of(node@), r),
{
    proof {
        reveal_with_fuel(node_model, 3);
        reveal_with_fuel(nodes_model, 3);
    }
    if node.children.len() < 1 {
        return Err(ParseError::Malformed);
    }
    if contains_dot(node.children[0].text.as_str()) {
        return Err(ParseError::DottedName);
    }
    if node.children.len() < 2 {
        return Err(ParseError::Malformed);
    }
    match expression(&node.children[1]) {
        Ok(value) => Ok(Statement::VariableAssignment { name: node.children[0].text.clone(), value }),
        Err(e) => Err(e),
    }
}

fn parse_multi_assignment(node: &ParseNode) -> (r: Result<Statement, ParseError>)
    ensures
        parsed(multi_assignment_of(node@), r),
{
    proof {
        reveal_with_fuel(node_model, 3);
        reveal_with_fuel(nodes_model, 3);
    }
    let k = find_other(&node.children, 0);
    if find_dotted(&node.children, k) < k {
        return Err(ParseError::DottedName);
    }
    if k >= node.children.len() {
        return Err(ParseError::Malformed);
    }
    match expression(&node.children[k]) {
        Ok(value) => Ok(
            Statement::VariableMultiAssignment { variables: texts_of(&node.children, 0, k), value },
        ),
        Err(e) => Err(e),
    }
}

fn parse_reassignment(node: &ParseNode) -> (r: Result<Statement, ParseError>)
    ensures
        parsed(reassignment_of(node@), r),
{
    proof {
        reveal_with_fuel(node_model, 3);
        reveal_with_fuel(nodes_model, 3);
    }
    if node.children.len() < 2 {
        return Err(ParseError::Malformed);
    }
    match expression(&node.children[1]) {
        Ok(value) => Ok(Statement::VariableReassignment { name: node.children[0].text.clone(), value }),
        Err(e) => Err(e),
    }
}

fn parse_call_statement(node: &ParseNode) -> (r: Result<Statement, ParseError>)
    ensures
        parsed(call_statement_of(node@), r),
{
    proof {
        reveal_with_fuel(node_model, 3);
        reveal_with_fuel(nodes_model, 3);
    }
    if node.children.len() < 1 || node.children[0].children.len() < 1 {
        return Err(ParseError::Malformed);
    }
    let call = &node.children[0];
    assert(call@ == node@.children[0]);
    match build_children(&call.children, 1) {
        Ok(args) => Ok(Statement::FunctionCall { name: call.children[0].text.clone(), args }),
        Err(e) => Err(e),
    }
}

fn parse_return(node: &ParseNode) -> (r: Result<Statement, ParseError>)
    ensures
        parsed(return_of(node@), r),
{
    proof {
        reveal_with_fuel(node_model, 3);
        reveal_with_fuel(nodes_model, 3);
    }
    match build_children(&node.children, 0) {
        Ok(values) => Ok(Statement::Return { returns: values }),
        Err(e) => Err(e),
    }
}

fn parse_class(node: &ParseNode) -> (r: Result<Statement, ParseError>)
    ensures
        parsed(class_of(node@), r),
{
    proof {
        reveal_with_fuel(node_model, 3);
        reveal_with_fuel(nodes_model, 3);
    }
    if node.children.len() < 1 {
        return Err(ParseError::Malformed);
    }
    Ok(
        Statement::ClassDeclaration {
            class_name: node.children[0].text.clone(),
            members: texts_of(&node.children, 1, node.children.len()),
        },
    )
}

fn parse_guarded(node: &ParseNode) -> (r: Result<(ExprAst, Vec<Statement>), ParseError>)
    ensures
        match guarded_of(node@) {
            Ok((condition, body)) => r matches Ok(x) && x.0@ == condition && block_model(x.1@) == body,
            Err(e) => r matches Err(x) && x == e,
        },
    decreases node, 0int,
{
    proof {
        reveal_with_fuel(node_model, 3);
        reveal_with_fuel(nodes_model, 3);
    }
    if node.children.len() < 2 {
        return Err(ParseError::Malformed);
    }
    let condition = match expression(&node.children[0]) {
        Ok(c) => c,
        Err(e) => {
            return Err(e);
        },
    };
    let block = &node.children[1];
    assert(block@ == node@.children[1]);
    match parse_body(&block.children) {
        Ok(body) => Ok((condition, body)),
        Err(e) => Err(e),
    }
}

/// Where the branches up to `n` fail, the branches up to any later child fail in the same way.
pub proof fn lemma_branches_fail(children: Seq<ParseNodeModel>, n: int, m: int)
    requires
        1 < n <= m <= children.len(),
        branches_of(children, n) is Err,
    ensures
        branches_of(children, m) == branches_of(children, n),
    decreases m - n,
{
    if n < m {
        lemma_branches_fail(children, n, m - 1);
    }
}

/// Once an `else` body is found, later children change nothing.
pub proof fn lemma_branches_done(children: Seq<ParseNodeModel>, n: int, m: int)
    requires
        1 < n <= m <= children.len(),
        branches_of(children, n) matches Ok((_, Some(_))),
    ensures
        branches_of(children, m) == branches_of(children, n),
    decreases m - n,
{
    if n < m {
        lemma_branches_done(children, n, m - 1);
    }
}

fn parse_branches(children: &Vec<ParseNode>) -> (r: Result<
    (Vec<(ExprAst, Vec<Statement>)>, Option<Vec<Statement>>),
    ParseError,
>)
    ensures
        match branches_of(nodes_model(children@), children.len() as int) {
            Ok((branches, last)) => r matches Ok(x) && branches_model(x.0@) == branches && match last {
                Some(b) => x.1 matches Some(y) && block_model(y@) == b,
                None => x.1 is None,
            },
            Err(e) => r matches Err(x) && x == e,
        },
    decreases children, 0int,
{
    proof {
        reveal_with_fuel(node_model, 3);
        reveal_with_fuel(nodes_model, 3);
    }
    let ghost nodes = nodes_model(children@);
    let mut branches: Vec<(ExprAst, Vec<Statement>)> = Vec::new();
    assert(branches_model(branches@) =~= Seq::empty());
    let n = children.len();
    let mut i: usize = 1;
    if n <= 1 {
        return Ok((branches, None));
    }
    while i < n
        invariant
            1 <= i <= n,
            n > 1,
            n == children.len(),
            nodes == nodes_model(children@),
            branches_of(nodes, i as int) == Ok::<
                (Seq<(ExprModel, Seq<StatementModel>)>, Option<Seq<StatementModel>>),
                ParseError,
            >((branches_model(branches@), None)),
        decreases n - i,
    {
        let child = &children[i];
        assert(child@ == nodes[i as int]);
        if child.rule == Rule::ConditionalElseIf {
            match parse_guarded(child) {
                Ok(branch) => {
                    let ghost before = branches_model(branches@);
                    branches.push(branch);
                    assert(branches_model(branches@) =~= before.push((branch.0@, block_model(branch.1@))));
                },
                Err(e) => {
                    proof {
                        lemma_branches_fail(nodes, i as int + 1, n as int);
                    }
                    return Err(e);
                },
            }
        } else if child.rule == Rule::ConditionalElse {
            if child.children.len() < 1 {
                proof {
                    lemma_branches_fail(nodes, i as int + 1, n as int);
                }
                return Err(ParseError::Malformed);
            }
            let block = &child.children[0];
            assert(block@ == nodes[i as int].children[0]);
            match parse_body(&block.children) {
                Ok(body) => {
                    proof {
                        lemma_branches_done(nodes, i as int + 1, n as int);
                    }
                    return Ok((branches, Some(body)));
                },
                Err(e) => {
                    proof {
                        lemma_branches_fail(nodes, i as int + 1, n as int);
                    }
                    return Err(e);
                },
            }
        } else {
            proof {
                lemma_branches_fail(nodes, i as int + 1, n as int);
            }
            return Err(ParseError::Malformed);
        }
        i += 1;
    }
    Ok((branches, None))
}

fn parse_conditional(node: &ParseNode) -> (r: Result<Statement, ParseError>)
    ensures
        parsed(conditional_of(node@), r),
    decreases node, 1int,
{
    proof {
        reveal_with_fuel(node_model, 3);
        reveal_with_fuel(nodes_model, 3);
    }
    if node.children.len() < 1 {
        return Err(ParseError::Malformed);
    }
    let first = &node.children[0];
    assert(first@ == node@.children[0]);
    let (condition, body) = match parse_guarded(first) {
        Ok(pair) => pair,
        Err(e) => {
            return Err(e);
        },
    };
    match parse_branches(&node.children) {
        Ok((else_if_conditions, else_body)) => Ok(
            Statement::Conditional { condition, body, else_if_conditions, else_body },
        ),
        Err(e) => Err(e),
    }
}

fn parse_while(node: &ParseNode) -> (r: Result<Statement, ParseError>)
    ensures
        parsed(while_of(node@), r),
    decreases node, 1int,
{
    proof {
        reveal_with_fuel(node_model, 3);
        reveal_with_fuel(nodes_model, 3);
    }
    match parse_guarded(node) {
        Ok((condition, body)) => Ok(Statement::WhileLoop { condition, body }),
        Err(e) => Err(e),
    }
}

fn parse_function(node: &ParseNode) -> (r: Result<Statement, ParseError>)
    ensures
        parsed(function_of(node@), r),
    decreases node, 1int,
{
    proof {
        reveal_with_fuel(node_model, 3);
        reveal_with_fuel(nodes_model, 3);
    }
    if node.children.len() < 1 {
        return Err(ParseError::Malformed);
    }
    let k = find_other(&node.children, 1);
    if k >= node.children.len() || node.children[k].rule != Rule::Block {
        return Err(ParseError::Malformed);
    }
    let block = &node.children[k];
    assert(block@ == node@.children[k as int]);
    match parse_body(&block.children) {
        Ok(body) => Ok(
            Statement::FunctionDefinition {
                name: node.children[0].text.clone(),
                args: texts_of(&node.children, 1, k),
                body,
            },
        ),
        Err(e) => Err(e),
    }
}

/// The statement that the node `pair` of the parse tree stands for; none for a comment.
pub fn parse_statement(pair: &ParseNode) -> (r: Result<Option<Statement>, ParseError>)
    ensures
        match statement_of(pair@) {
            Ok(Some(s)) => r matches Ok(Some(x)) && x@ == s,
            Ok(None) => r matches Ok(None),
            Err(e) => r matches Err(x) && x == e,
        },
    decreases pair, 2int,
{
    proof {
        reveal_with_fuel(node_model, 3);
        reveal_with_fuel(nodes_model, 3);
    }
    let one = match pair.rule {
        Rule::VariableAssignment => parse_assignment(pair),
        Rule::VariableMultiAssignment => parse_multi_assignment(pair),
        Rule::VariableReassignment => parse_reassignment(pair),
        Rule::FunctionCallStatement => parse_call_statement(pair),
        Rule::Conditional => parse_conditional(pair),
        Rule::WhileLoop => parse_while(pair),
        Rule::BreakKw => Ok(Statement::Break),
        Rule::ContinueKw => Ok(Statement::Continue),
        Rule::ReturnKw => parse_return(pair),
        Rule::FunctionDeclaration => parse_function(pair),
        Rule::ClassDeclaration => parse_class(pair),
        Rule::Comment => {
            return Ok(None);
        },
        _ => Err(ParseError::Malformed),
    };
    match one {
        Ok(s) => Ok(Some(s)),
        Err(e) => Err(e),
    }
}

/// Where the first `n` nodes fail, any longer run of them fails in the same way.
pub proof fn lemma_body_fails(nodes: Seq<ParseNodeModel>, n: int, m: int)
    requires
        0 < n <= m <= nodes.len(),
        body_of(nodes, n) is Err,
    ensures
        body_of(nodes, m) == body_of(nodes, n),
    decreases m - n,
{
    if n < m {
        lemma_body_fails(nodes, n, m - 1);
    }
}

fn parse_nodes(pairs: &Vec<ParseNode>, to: usize) -> (r: Result<Vec<Statement>, ParseError>)
    requires
        to <= pairs.len(),
    ensures
        parsed_all(body_of(nodes_model(pairs@), to as int), r),
    decreases pairs, 0int,
{
    proof {
        reveal_with_fuel(node_model, 3);
        reveal_with_fuel(nodes_model, 3);
    }
    let ghost nodes = nodes_model(pairs@);
    let mut statements: Vec<Statement> = Vec::new();
    assert(block_model(statements@) =~= Seq::empty());
    let mut i: usize = 0;
    while i < to
        invariant
            i <= to <= pairs.len(),
            nodes == nodes_model(pairs@),
            body_of(nodes, i as int) == Ok::<Seq<StatementModel>, ParseError>(
                block_model(statements@),
            ),
        decreases to - i,
    {
        match parse_statement(&pairs[i]) {
            Ok(Some(statement)) => {
                let ghost before = block_model(statements@);
                statements.push(statement);
                assert(block_model(statements@) =~= before.push(statement@));
            },
            Ok(None) => {},
            Err(e) => {
                proof {
                    lemma_body_fails(nodes, i as int + 1, to as int);
                }
                return Err(e);
            },
        }
        i += 1;
    }
    Ok(statements)
}

/// The statements of the nodes `pairs` of a block, in order; comments leave none.
pub fn parse_body(pairs: &Vec<ParseNode>) -> (r: Result<Vec<Statement>, ParseError>)
    ensures
        parsed_all(body_of(nodes_model(pairs@), pairs.len() as int), r),
    decreases pairs, 1int,
{
    proof {
        reveal_with_fuel(node_model, 3);
        reveal_with_fuel(nodes_model, 3);
    }
    parse_nodes(pairs, pairs.len())
}

fn find_end(nodes: &Vec<ParseNode>) -> (r: usize)
    ensures
        r == end_of_input(nodes_model(nodes@), 0),
        r <= nodes.len(),
{
    proof {
        reveal_with_fuel(node_model, 3);
        reveal_with_fuel(nodes_model, 3);
    }
    let mut i: usize = 0;
    while i < nodes.len()
        invariant
            i <= nodes.len(),
            end_of_input(nodes_model(nodes@), 0) == end_of_input(nodes_model(nodes@), i as int),
        decreases nodes.len() - i,
    {
        if nodes[i].rule == Rule::EOI {
            return i;
        }
        i += 1;
    }
    i
}

/// The statements of a file, given the nodes that the grammar's `program` rule makes of
/// its text: the statements of the nodes before the end of the input.
pub fn parse_file_data(file_data: &Vec<ParseNode>) -> (r: Result<Vec<Statement>, ParseError>)
    ensures
        parsed_all(file_of(nodes_model(file_data@)), r),
{
    proof {
        reveal_with_fuel(node_model, 3);
        reveal_with_fuel(nodes_model, 3);
    }
    let end = find_end(file_data);
    parse_nodes(file_data, end)
}

} // verus!
