//! Expressions, the nodes of the parse tree, and the builder that turns the nodes of an
//! expression into an expression.

use crate::error::ParseError;
use crate::operators::BinaryOp;
use crate::text::chars_of;
use crate::text::string_of_range;
use crate::text::text_eq;
use vstd::prelude::*;

verus! {

broadcast use vstd::std_specs::vec::group_vec_axioms;

/// A leaf of an expression.
#[derive(Debug, PartialEq)]
pub enum EvalValue {
    /// A name to look up when the program runs; periods in it lead to members.
    Reference { val: String },
    /// An integer as the source writes it.
    IntegerLiteral { val: String },
    /// A string, with its escapes resolved and its quotes taken off.
    Stringliteral { val: String },
    /// A float as the source writes it.
    FloatLiteral { val: String },
    BooleanLiteral { val: bool },
    List { val: Vec<ExprAst> },
}

/// An expression.
#[derive(Debug, PartialEq)]
pub enum ExprAst {
    Value { val: EvalValue },
    FunctionCall { name: String, args: Vec<ExprAst> },
    Addition { lhs: Box<ExprAst>, rhs: Box<ExprAst> },
    Subtraction { lhs: Box<ExprAst>, rhs: Box<ExprAst> },
    Division { lhs: Box<ExprAst>, rhs: Box<ExprAst> },
    Multiplication { lhs: Box<ExprAst>, rhs: Box<ExprAst> },
    Eq { lhs: Box<ExprAst>, rhs: Box<ExprAst> },
    Neq { lhs: Box<ExprAst>, rhs: Box<ExprAst> },
    GtEq { lhs: Box<ExprAst>, rhs: Box<ExprAst> },
    LtEq { lhs: Box<ExprAst>, rhs: Box<ExprAst> },
    Gt { lhs: Box<ExprAst>, rhs: Box<ExprAst> },
    Lt { lhs: Box<ExprAst>, rhs: Box<ExprAst> },
}

/// An [`ExprAst`] as a mathematical value. The ten operations are one case, told apart by
/// their operator.
pub enum ExprModel {
    Reference(Seq<char>),
    Integer(Seq<char>),
    Text(Seq<char>),
    Float(Seq<char>),
    Boolean(bool),
    List(Seq<ExprModel>),
    Call(Seq<char>, Seq<ExprModel>),
    Binary(BinaryOp, Box<ExprModel>, Box<ExprModel>),
}

/// The leaf `v` as a mathematical value.
pub open spec fn leaf_model(v: EvalValue) -> ExprModel
    decreases v,
{
    match v {
        EvalValue::Reference { val } => ExprModel::Reference(val@),
        EvalValue::IntegerLiteral { val } => ExprModel::Integer(val@),
        EvalValue::Stringliteral { val } => ExprModel::Text(val@),
        EvalValue::FloatLiteral { val } => ExprModel::Float(val@),
        EvalValue::BooleanLiteral { val } => ExprModel::Boolean(val),
        EvalValue::List { val } => ExprModel::List(exprs_model(val@)),
    }
}

/// The expression `e` as a mathematical value.
pub open spec fn expr_model(e: ExprAst) -> ExprModel
    decreases e,
{
    match e {
        ExprAst::Value { val } => leaf_model(val),
        ExprAst::FunctionCall { name, args } => ExprModel::Call(name@, exprs_model(args@)),
        ExprAst::Addition { lhs, rhs } => ExprModel::Binary(
            BinaryOp::Add,
            Box::new(expr_model(*lhs)),
            Box::new(expr_model(*rhs)),
        ),
        ExprAst::Subtraction { lhs, rhs } => ExprModel::Binary(
            BinaryOp::Sub,
            Box::new(expr_model(*lhs)),
            Box::new(expr_model(*rhs)),
        ),
        ExprAst::Division { lhs, rhs } => ExprModel::Binary(
            BinaryOp::Div,
            Box::new(expr_model(*lhs)),
            Box::new(expr_model(*rhs)),
        ),
        ExprAst::Multiplication { lhs, rhs } => ExprModel::Binary(
            BinaryOp::Mul,
            Box::new(expr_model(*lhs)),
            Box::new(expr_model(*rhs)),
        ),
        ExprAst::Eq { lhs, rhs } => ExprModel::Binary(
            BinaryOp::Eq,
            Box::new(expr_model(*lhs)),
            Box::new(expr_model(*rhs)),
        ),
        ExprAst::Neq { lhs, rhs } => ExprModel::Binary(
            BinaryOp::Neq,
            Box::new(expr_model(*lhs)),
            Box::new(expr_model(*rhs)),
        ),
        ExprAst::GtEq { lhs, rhs } => ExprModel::Binary(
            BinaryOp::GtEq,
            Box::new(expr_model(*lhs)),
            Box::new(expr_model(*rhs)),
        ),
        ExprAst::LtEq { lhs, rhs } => ExprModel::Binary(
            BinaryOp::LtEq,
            Box::new(expr_model(*lhs)),
            Box::new(expr_model(*rhs)),
        ),
        ExprAst::Gt { lhs, rhs } => ExprModel::Binary(
            BinaryOp::Gt,
            Box::new(expr_model(*lhs)),
            Box::new(expr_model(*rhs)),
        ),
        ExprAst::Lt { lhs, rhs } => ExprModel::Binary(
            BinaryOp::Lt,
            Box::new(expr_model(*lhs)),
            Box::new(expr_model(*rhs)),
        ),
    }
}

/// The expressions of `es` as mathematical values.
pub open spec fn exprs_model(es: Seq<ExprAst>) -> Seq<ExprModel>
    decreases es,
{
    Seq::new(
        es.len(),
        |i: int|
            if 0 <= i < es.len() {
                expr_model(es[i])
            } else {
                arbitrary()
            },
    )
}

impl View for EvalValue {
    type V = ExprModel;

    open spec fn view(&self) -> ExprModel {
        leaf_model(*self)
    }
}

impl View for ExprAst {
    type V = ExprModel;

    open spec fn view(&self) -> ExprModel {
        expr_model(*self)
    }
}



/// The rule of the grammar that a node of the parse tree stands for.
#[derive(Clone, Copy, Debug, PartialEq, Eq, Structural)]
pub enum Rule {
    EOI,
    Program,
    Comment,
    Block,
    Expr,
    BareExpr,
    Sum,
    Product,
    Term,
    Integer,
    Float,
    String,
    Boolean,
    Identifier,
    FunctionCall,
    List,
    EqOps,
    SumOps,
    ProdOps,
    VariableAssignment,
    VariableMultiAssignment,
    VariableReassignment,
    FunctionCallStatement,
    Conditional,
    ConditionalIf,
    ConditionalElseIf,
    ConditionalElse,
    WhileLoop,
    BreakKw,
    ContinueKw,
    ReturnKw,
    FunctionDeclaration,
    ClassDeclaration,
}

/// A node of the parse tree: its rule, the source text that it spans, and the nodes
/// inside it, in the order of the source.
#[derive(Debug, PartialEq)]
pub struct ParseNode {
    pub rule: Rule,
    pub text: String,
    pub children: Vec<ParseNode>,
}

/// A [`ParseNode`] as a mathematical value.
pub struct ParseNodeModel {
    pub rule: Rule,
    pub text: Seq<char>,
    pub children: Seq<ParseNodeModel>,
}

/// The node `n` as a mathematical value.
pub open spec fn node_model(n: ParseNode) -> ParseNodeModel
    decreases n,
{
    ParseNodeModel { rule: n.rule, text: n.text@, children: nodes_model(n.children@) }
}

/// The nodes of `ns` as mathematical values.
pub open spec fn nodes_model(ns: Seq<ParseNode>) -> Seq<ParseNodeModel>
    decreases ns,
{
    Seq::new(
        ns.len(),
        |i: int|
            if 0 <= i < ns.len() {
                node_model(ns[i])
            } else {
                arbitrary()
            },
    )
}

impl View for ParseNode {
    type V = ParseNodeModel;

    open spec fn view(&self) -> ParseNodeModel {
        node_model(*self)
    }
}

/// The operator that an operator token writes.
pub open spec fn operator_of_text(t: Seq<char>) -> Option<BinaryOp> {
    if t == "+"@ {
        Some(BinaryOp::Add)
    } else if t == "-"@ {
        Some(BinaryOp::Sub)
    } else if t == "/"@ {
        Some(BinaryOp::Div)
    } else if t == "*"@ {
        Some(BinaryOp::Mul)
    } else if t == "=="@ {
        Some(BinaryOp::Eq)
    } else if t == "!="@ {
        Some(BinaryOp::Neq)
    } else if t == ">="@ {
        Some(BinaryOp::GtEq)
    } else if t == "<="@ {
        Some(BinaryOp::LtEq)
    } else if t == ">"@ {
        Some(BinaryOp::Gt)
    } else if t == "<"@ {
        Some(BinaryOp::Lt)
    } else {
        None
    }
}

/// The operator that the token `op` writes; `None` where it writes none.
pub fn str_to_op_no(op: &str) -> (r: Option<BinaryOp>)
    ensures
        r == operator_of_text(op@),
{
    if text_eq(op, "+") {
        Some(BinaryOp::Add)
    } else if text_eq(op, "-") {
        Some(BinaryOp::Sub)
    } else if text_eq(op, "/") {
        Some(BinaryOp::Div)
    } else if text_eq(op, "*") {
        Some(BinaryOp::Mul)
    } else if text_eq(op, "==") {
        Some(BinaryOp::Eq)
    } else if text_eq(op, "!=") {
        Some(BinaryOp::Neq)
    } else if text_eq(op, ">=") {
        Some(BinaryOp::GtEq)
    } else if text_eq(op, "<=") {
        Some(BinaryOp::LtEq)
    } else if text_eq(op, ">") {
        Some(BinaryOp::Gt)
    } else if text_eq(op, "<") {
        Some(BinaryOp::Lt)
    } else {
        None
    }
}

/// The character that a backslash and then `c` stand for, where they stand for one.
pub open spec fn escape_of(c: char) -> Option<char> {
    if c == 'n' {
        Some('\n')
    } else if c == 't' {
        Some('\t')
    } else if c == 'r' {
        Some('\r')
    } else if c == '\\' {
        Some('\\')
    } else if c == '0' {
        Some('\0')
    } else if c == '"' {
        Some('"')
    } else {
        None
    }
}

/// `s` from `from` on with its escapes resolved: reading from the left, a backslash and the
/// character after it become the character that they stand for; any other character
/// stays, a backslash that starts no escape too.
pub open spec fn unescape(s: Seq<char>, from: int) -> Seq<char>
    decreases s.len() - from,
{
    if from < 0 || from >= s.len() {
        Seq::empty()
    } else if s[from] == '\\' && from + 1 < s.len() && escape_of(s[from + 1]) is Some {
        seq![escape_of(s[from + 1])->0] + unescape(s, from + 2)
    } else {
        seq![s[from]] + unescape(s, from + 1)
    }
}

fn escaped(c: char) -> (r: Option<char>)
    ensures
        r == escape_of(c),
{
    if c == 'n' {
        Some('\n')
    } else if c == 't' {
        Some('\t')
    } else if c == 'r' {
        Some('\r')
    } else if c == '\\' {
        Some('\\')
    } else if c == '0' {
        Some('\0')
    } else if c == '"' {
        Some('"')
    } else {
        None
    }
}

fn unescape_chars(string: &str) -> (r: Vec<char>)
    ensures
        r@ == unescape(string@, 0),
{
    let chars = chars_of(string);
    let mut out: Vec<char> = Vec::new();
    let mut index: usize = 0;
    assert(out@ + unescape(chars@, 0) =~= unescape(chars@, 0));
    while index < chars.len()
        invariant
            index <= chars.len(),
            chars@ == string@,
            out@ + unescape(chars@, index as int) == unescape(chars@, 0),
        decreases chars.len() - index,
    {
        let ghost before = out@;
        let ghost rest = unescape(chars@, index as int);
        if chars[index] == '\\' && index + 1 < chars.len() {
            match escaped(chars[index + 1]) {
                Some(c) => {
                    out.push(c);
                    index += 2;
                    assert(out@ + unescape(chars@, index as int) =~= before + rest);
                    continue ;
                },
                None => {},
            }
        }
        out.push(chars[index]);
        index += 1;
        assert(out@ + unescape(chars@, index as int) =~= before + rest);
    }
    assert(out@ + Seq::<char>::empty() =~= out@);
    out
}

/// `string` with its escapes resolved.
pub fn parse_str(string: &str) -> (r: String)
    ensures
        r@ == unescape(string@, 0),
{
    let chars = unescape_chars(string);
    let r = string_of_range(&chars, 0, chars.len());
    assert(chars@.subrange(0, chars.len() as int) =~= chars@);
    r
}

/// The string that a string token writes: its escapes resolved, and then the character at
/// each end, its quotes, taken off. `None` for a token of fewer than two characters.
pub open spec fn string_literal(text: Seq<char>) -> Option<ExprModel> {
    let plain = unescape(text, 0);
    if plain.len() < 2 {
        None
    } else {
        Some(ExprModel::Text(plain.subrange(1, plain.len() - 1)))
    }
}

/// The expression that the node `child` of a tier with the operator rule `ops` is as an
/// operand.
pub open spec fn operand(child: ParseNodeModel, ops: Rule) -> Option<ExprModel>
    decreases child, 1int,
{
    if child.rule == ops {
        None
    } else {
        build(child)
    }
}

/// The operator that the node `child` of a tier with the operator rule `ops` writes.
pub open spec fn operator(child: ParseNodeModel, ops: Rule) -> Option<BinaryOp> {
    if child.rule == ops {
        operator_of_text(child.text)
    } else {
        None
    }
}

/// The expression made of the first `n` children of a tier, which are operands with an
/// operator between each two: the operations group from the left.
pub open spec fn fold(children: Seq<ParseNodeModel>, ops: Rule, n: int) -> Option<ExprModel>
    decreases children, n,
{
    if n < 1 || n > children.len() || n % 2 == 0 {
        None
    } else if n == 1 {
        operand(children[0], ops)
    } else {
        match (fold(children, ops, n - 2), operator(children[n - 2], ops), operand(children[n - 1], ops)) {
            (Some(acc), Some(op), Some(rhs)) => Some(
                ExprModel::Binary(op, Box::new(acc), Box::new(rhs)),
            ),
            _ => None,
        }
    }
}

/// The expression of a tier: that of its only child, or its children folded from the left.
pub open spec fn build_tier(children: Seq<ParseNodeModel>, ops: Rule) -> Option<ExprModel>
    decreases children, children.len() + 1,
{
    if children.len() == 1 {
        build(children[0])
    } else {
        fold(children, ops, children.len() as int)
    }
}

/// The expressions of the children of index `from` up to `n`, in order.
pub open spec fn build_all(children: Seq<ParseNodeModel>, from: int, n: int) -> Option<Seq<ExprModel>>
    decreases children, n,
{
    if n <= from || n > children.len() || from < 0 {
        Some(Seq::empty())
    } else {
        match (build_all(children, from, n - 1), build(children[n - 1])) {
            (Some(before), Some(last)) => Some(before.push(last)),
            _ => None,
        }
    }
}

/// The expression that a node of the parse tree stands for; `None` for a malformed node.
///
/// An `expr` or a `term` is its last child. Each of the three tiers is its only child, or
/// its operands folded from the left. A literal or an identifier is a leaf made of the node's
/// text. A call is named by its first child and has the others as arguments. A list has its
/// children as elements. A node of any other rule, or of another shape, is malformed.
pub open spec fn build(node: ParseNodeModel) -> Option<ExprModel>
    decreases node, 0int,
{
    match node.rule {
        Rule::Expr | Rule::Term => if node.children.len() == 0 {
            None
        } else {
            build(node.children.last())
        },
        Rule::BareExpr => build_tier(node.children, Rule::EqOps),
        Rule::Sum => build_tier(node.children, Rule::SumOps),
        Rule::Product => build_tier(node.children, Rule::ProdOps),
        Rule::Integer => Some(ExprModel::Integer(node.text)),
        Rule::Float => Some(ExprModel::Float(node.text)),
        Rule::String => string_literal(node.text),
        Rule::Boolean => Some(ExprModel::Boolean(node.text == "true"@)),
        Rule::Identifier => Some(ExprModel::Reference(node.text)),
        Rule::FunctionCall => if node.children.len() == 0 {
            None
        } else {
            match build_all(node.children, 1, node.children.len() as int) {
                Some(args) => Some(ExprModel::Call(node.children[0].text, args)),
                None => None,
            }
        },
        Rule::List => match build_all(node.children, 0, node.children.len() as int) {
            Some(items) => Some(ExprModel::List(items)),
            None => None,
        },
        _ => None,
    }
}

/// Whether `r` is what building gave `expected`: the expression, or the error that the
/// node is malformed.
pub open spec fn built(expected: Option<ExprModel>, r: Result<ExprAst, ParseError>) -> bool {
    match expected {
        Some(e) => r matches Ok(x) && x@ == e,
        None => r matches Err(x) && x == ParseError::Malformed,
    }
}

/// Whether `r` is what building gave `expected`: the expressions, or the error that a
/// node is malformed.
pub open spec fn built_all(expected: Option<Seq<ExprModel>>, r: Result<Vec<ExprAst>, ParseError>) -> bool {
    match expected {
        Some(es) => r matches Ok(v) && exprs_model(v@) == es,
        None => r matches Err(x) && x == ParseError::Malformed,
    }
}

fn make_binary(op: BinaryOp, lhs: ExprAst, rhs: ExprAst) -> (r: ExprAst)
    ensures
        r@ == ExprModel::Binary(op, Box::new(lhs@), Box::new(rhs@)),
{
    let lhs = Box::new(lhs);
    let rhs = Box::new(rhs);
    match op {
        BinaryOp::Add => ExprAst::Addition { lhs, rhs },
        BinaryOp::Sub => ExprAst::Subtraction { lhs, rhs },
        BinaryOp::Div => ExprAst::Division { lhs, rhs },
        BinaryOp::Mul => ExprAst::Multiplication { lhs, rhs },
        BinaryOp::Eq => ExprAst::Eq { lhs, rhs },
        BinaryOp::Neq => ExprAst::Neq { lhs, rhs },
        BinaryOp::GtEq => ExprAst::GtEq { lhs, rhs },
        BinaryOp::LtEq => ExprAst::LtEq { lhs, rhs },
        BinaryOp::Gt => ExprAst::Gt { lhs, rhs },
        BinaryOp::Lt => ExprAst::Lt { lhs, rhs },
    }
}

fn leaf(val: EvalValue) -> (r: ExprAst)
    ensures
        r@ == val@,
{
    ExprAst::Value { val }
}

fn string_leaf(text: &str) -> (r: Result<ExprAst, ParseError>)
    ensures
        built(string_literal(text@), r),
{
    let chars = unescape_chars(text);
    if chars.len() < 2 {
        return Err(ParseError::Malformed);
    }
    let inner = string_of_range(&chars, 1, chars.len() - 1);
    Ok(leaf(EvalValue::Stringliteral { val: inner }))
}

/// Where the first `n` children do not fold, no longer run of them does.
pub proof fn lemma_fold_fails(children: Seq<ParseNodeModel>, ops: Rule, n: int, m: int)
    requires
        1 <= n <= m <= children.len(),
        n % 2 == 1,
        m % 2 == 1,
        fold(children, ops, n) is None,
    ensures
        fold(children, ops, m) is None,
    decreases m - n,
{
    if n < m {
        lemma_fold_fails(children, ops, n, m - 2);
    }
}

/// Where the children up to `n` do not all build, no longer run of them does.
pub proof fn lemma_build_all_fails(children: Seq<ParseNodeModel>, from: int, n: int, m: int)
    requires
        0 <= from < n <= m <= children.len(),
        build_all(children, from, n) is None,
    ensures
        build_all(children, from, m) is None,
    decreases m - n,
{
    if n < m {
        lemma_build_all_fails(children, from, n, m - 1);
    }
}

fn operand_of(child: &ParseNode, ops: Rule) -> (r: Result<ExprAst, ParseError>)
    ensures
        built(operand(child@, ops), r),
    decreases child, 1int,
{
    if child.rule == ops {
        Err(ParseError::Malformed)
    } else {
        rule_expr_to_eval_expr(child)
    }
}

fn operator_at(child: &ParseNode, ops: Rule) -> (r: Option<BinaryOp>)
    ensures
        r == operator(child@, ops),
{
    if child.rule == ops {
        str_to_op_no(child.text.as_str())
    } else {
        None
    }
}

/// The expression of a tier whose nodes are `children` and whose operator tokens have the
/// rule `ops`.
pub fn fold_tier(children: &Vec<ParseNode>, ops: Rule) -> (r: Result<ExprAst, ParseError>)
    ensures
        built(build_tier(nodes_model(children@), ops), r),
    decreases children, 0int,
{
    let ghost nodes = nodes_model(children@);
    let n = children.len();
    if n == 1 {
        return rule_expr_to_eval_expr(&children[0]);
    }
    if n == 0 || n % 2 == 0 {
        return Err(ParseError::Malformed);
    }
    let mut acc = match operand_of(&children[0], ops) {
        Ok(e) => e,
        Err(_) => {
            proof {
                lemma_fold_fails(nodes, ops, 1, n as int);
            }
            return Err(ParseError::Malformed);
        },
    };
    let mut i: usize = 1;
    while i < n
        invariant
            1 <= i <= n,
            i % 2 == 1,
            n % 2 == 1,
            n == children.len(),
            nodes == nodes_model(children@),
            fold(nodes, ops, i as int) == Some(acc@),
        decreases n - i,
    {
        let op = match operator_at(&children[i], ops) {
            Some(op) => op,
            None => {
                proof {
                    lemma_fold_fails(nodes, ops, i as int + 2, n as int);
                }
                return Err(ParseError::Malformed);
            },
        };
        let rhs = match operand_of(&children[i + 1], ops) {
            Ok(e) => e,
            Err(_) => {
                proof {
                    lemma_fold_fails(nodes, ops, i as int + 2, n as int);
                }
                return Err(ParseError::Malformed);
            },
        };
        acc = make_binary(op, acc, rhs);
        i += 2;
    }
    Ok(acc)
}

/// The expressions of `children` from the index `from` on, in order.
pub fn build_children(children: &Vec<ParseNode>, from: usize) -> (r: Result<Vec<ExprAst>, ParseError>)
    ensures
        built_all(build_all(nodes_model(children@), from as int, children.len() as int), r),
    decreases children, 0int,
{
    let ghost nodes = nodes_model(children@);
    let mut out: Vec<ExprAst> = Vec::new();
    assert(exprs_model(out@) =~= Seq::empty());
    if from >= children.len() {
        return Ok(out);
    }
    let mut i: usize = from;
    while i < children.len()
        invariant
            from <= i <= children.len(),
            from < children.len(),
            nodes == nodes_model(children@),
            build_all(nodes, from as int, i as int) == Some(exprs_model(out@)),
        decreases children.len() - i,
    {
        match rule_expr_to_eval_expr(&children[i]) {
            Ok(e) => {
                let ghost before = exprs_model(out@);
                out.push(e);
                assert(exprs_model(out@) =~= before.push(e@));
            },
            Err(_) => {
                proof {
                    lemma_build_all_fails(nodes, from as int, i as int + 1, children.len() as int);
                }
                return Err(ParseError::Malformed);
            },
        }
        i += 1;
    }
    Ok(out)
}

/// The expression that the node `rule` of the parse tree stands for.
pub fn rule_expr_to_eval_expr(rule: &ParseNode) -> (r: Result<ExprAst, ParseError>)
    ensures
        built(build(rule@), r),
    decreases rule, 0int,
{
    match rule.rule {
        Rule::Expr | Rule::Term => {
            let n = rule.children.len();
            if n == 0 {
                Err(ParseError::Malformed)
            } else {
                rule_expr_to_eval_expr(&rule.children[n - 1])
            }
        },
        Rule::BareExpr => fold_tier(&rule.children, Rule::EqOps),
        Rule::Sum => fold_tier(&rule.children, Rule::SumOps),
        Rule::Product => fold_tier(&rule.children, Rule::ProdOps),
        Rule::Integer => Ok(leaf(EvalValue::IntegerLiteral { val: rule.text.clone() })),
        Rule::Float => Ok(leaf(EvalValue::FloatLiteral { val: rule.text.clone() })),
        Rule::String => string_leaf(rule.text.as_str()),
        Rule::Boolean => Ok(
            leaf(EvalValue::BooleanLiteral { val: text_eq(rule.text.as_str(), "true") }),
        ),
        Rule::Identifier => Ok(leaf(EvalValue::Reference { val: rule.text.clone() })),
        Rule::FunctionCall => {
            if rule.children.len() == 0 {
                return Err(ParseError::Malformed);
            }
            match build_children(&rule.children, 1) {
                Ok(args) => Ok(ExprAst::FunctionCall { name: rule.children[0].text.clone(), args }),
                Err(e) => Err(e),
            }
        },
        Rule::List => match build_children(&rule.children, 0) {
            Ok(items) => Ok(leaf(EvalValue::List { val: items })),
            Err(e) => Err(e),
        },
        _ => Err(ParseError::Malformed),
    }
}

/// The expression that the node `rule` of the parse tree stands for.
pub fn parse_expression(rule: &ParseNode) -> (r: Result<ExprAst, ParseError>)
    ensures
        built(build(rule@), r),
{
    rule_expr_to_eval_expr(rule)
}

/// The expressions of `nodes` from `from` on, up to the end of the input: each node before
/// it must be an `expr`.
pub open spec fn build_until_end(nodes: Seq<ParseNodeModel>, from: int) -> Option<Seq<ExprModel>>
    decreases nodes.len() - from,
{
    if from < 0 || from >= nodes.len() {
        Some(Seq::empty())
    } else if nodes[from].rule == Rule::EOI {
        Some(Seq::empty())
    } else if nodes[from].rule == Rule::Expr {
        match (build(nodes[from]), build_until_end(nodes, from + 1)) {
            (Some(first), Some(rest)) => Some(seq![first] + rest),
            _ => None,
        }
    } else {
        None
    }
}

/// `r` with `before` in front of the expressions that it holds.
pub open spec fn after(before: Seq<ExprModel>, r: Option<Seq<ExprModel>>) -> Option<Seq<ExprModel>> {
    match r {
        Some(rest) => Some(before + rest),
        None => None,
    }
}

/// The expressions of `rules`, up to the end of the input.
pub fn parse_expressions(rules: &Vec<ParseNode>) -> (r: Result<Vec<ExprAst>, ParseError>)
    ensures
        built_all(build_until_end(nodes_model(rules@), 0), r),
{
    let ghost nodes = nodes_model(rules@);
    let mut nums: Vec<ExprAst> = Vec::new();
    let mut i: usize = 0;
    assert(exprs_model(nums@) =~= Seq::empty());
    assert(after(exprs_model(nums@), build_until_end(nodes, 0)) =~= build_until_end(nodes, 0)) by {
        match build_until_end(nodes, 0) {
            Some(rest) => {
                assert(Seq::<ExprModel>::empty() + rest =~= rest);
            },
            None => {},
        }
    }
    while i < rules.len()
        invariant
            i <= rules.len(),
            nodes == nodes_model(rules@),
            build_until_end(nodes, 0) == after(exprs_model(nums@), build_until_end(nodes, i as int)),
        decreases rules.len() - i,
    {
        let ghost before = exprs_model(nums@);
        match rules[i].rule {
            Rule::EOI => {
                assert(before + Seq::<ExprModel>::empty() =~= before);
                return Ok(nums);
            },
            Rule::Expr => match rule_expr_to_eval_expr(&rules[i]) {
                Ok(e) => {
                    nums.push(e);
                    assert(exprs_model(nums@) =~= before.push(e@));
                    proof {
                        match build_until_end(nodes, i as int + 1) {
                            Some(rest) => {
                                assert(before + (seq![e@] + rest) =~= before.push(e@) + rest);
                            },
                            None => {},
                        }
                    }
                },
                Err(_) => {
                    return Err(ParseError::Malformed);
                },
            },
            _ => {
                return Err(ParseError::Malformed);
            },
        }
        i += 1;
    }
    assert(exprs_model(nums@) + Seq::<ExprModel>::empty() =~= exprs_model(nums@));
    Ok(nums)
}

/// The operations of a tier group from the left: the expression of a tier with more than
/// one operand is an operation whose right operand is the last operand of the tier, and
/// whose left operand is the expression of the tier without its last operator and operand.
pub proof fn law_left_associative(children: Seq<ParseNodeModel>, ops: Rule)
    requires
        children.len() >= 3,
        build_tier(children, ops) is Some,
    ensures
        fold(children, ops, children.len() - 2) is Some,
        operator(children[children.len() - 2], ops) is Some,
        operand(children.last(), ops) is Some,
        build_tier(children, ops) == Some(
            ExprModel::Binary(
                operator(children[children.len() - 2], ops)->0,
                Box::new(fold(children, ops, children.len() - 2)->0),
                Box::new(operand(children.last(), ops)->0),
            ),
        ),
{
}

/// A tier of three operands `a`, `b` and `c` with the operators `first` and `second`
/// between them is the operation `second` on the operation `first` on `a` and `b`, and `c`.
pub proof fn law_three_operands(children: Seq<ParseNodeModel>, ops: Rule)
    requires
        children.len() == 5,
        build_tier(children, ops) is Some,
    ensures
        operand(children[0], ops) is Some,
        operand(children[2], ops) is Some,
        operand(children[4], ops) is Some,
        operator(children[1], ops) is Some,
        operator(children[3], ops) is Some,
        build_tier(children, ops) == Some(
            ExprModel::Binary(
                operator(children[3], ops)->0,
                Box::new(
                    ExprModel::Binary(
                        operator(children[1], ops)->0,
                        Box::new(operand(children[0], ops)->0),
                        Box::new(operand(children[2], ops)->0),
                    ),
                ),
                Box::new(operand(children[4], ops)->0),
            ),
        ),
{
    assert(fold(children, ops, 5) is Some);
    assert(fold(children, ops, 3) is Some);
    assert(fold(children, ops, 1) is Some);
}

} // verus!
