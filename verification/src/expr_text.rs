//! The text of an expression, copies of expressions, and what a leaf holds.

use crate::eval_parser::expr_model;
use crate::eval_parser::exprs_model;
use crate::eval_parser::leaf_model;
use crate::eval_parser::EvalValue;
use crate::eval_parser::ExprAst;
use crate::eval_parser::ExprModel;
use crate::operators::BinaryOp;
use crate::text::chars_of;
use crate::text::parse_i64;
use crate::text::parse_int;
use crate::text::string_of;
use vstd::hash_map::StringHashMap;
use vstd::prelude::*;

verus! {

broadcast use vstd::std_specs::vec::group_vec_axioms;

/// The operator `op` as it stands between its operands, with a space on each side.
pub open spec fn symbol(op: BinaryOp) -> Seq<char> {
    match op {
        BinaryOp::Add => " + "@,
        BinaryOp::Sub => " - "@,
        BinaryOp::Div => " / "@,
        BinaryOp::Mul => " * "@,
        BinaryOp::Eq => " == "@,
        BinaryOp::Neq => " != "@,
        BinaryOp::GtEq => " >= "@,
        BinaryOp::LtEq => " <= "@,
        BinaryOp::Gt => " > "@,
        BinaryOp::Lt => " < "@,
    }
}

/// `s` without its last two characters; nothing where it has fewer.
pub open spec fn drop_two(s: Seq<char>) -> Seq<char> {
    if s.len() < 2 {
        Seq::empty()
    } else {
        s.take(s.len() - 2)
    }
}

/// The texts of the first `n` of `es`, each with a comma and a space after it.
pub open spec fn listed(es: Seq<ExprModel>, n: int) -> Seq<char>
    decreases es, n,
{
    if n <= 0 || n > es.len() {
        Seq::empty()
    } else {
        listed(es, n - 1) + expr_text(es[n - 1]) + seq![',', ' ']
    }
}

/// The text of an expression, as the tree-walking evaluator prints it.
///
/// A name or a literal is its own text, a boolean `true` or `false`. An operation is its
/// operands with the operator between them. A list is an opening bracket and its elements
/// with a comma and a space between each two; a call is its name, its arguments between
/// parentheses with a comma and a space between each two. The last two characters before
/// the end are always taken off, the separator or not: a list without elements is the
/// empty text, and a call without arguments lacks the opening parenthesis and the last
/// character of its name.
pub open spec fn expr_text(e: ExprModel) -> Seq<char>
    decreases e, 0int,
{
    match e {
        ExprModel::Reference(s) => s,
        ExprModel::Integer(s) => s,
        ExprModel::Text(s) => s,
        ExprModel::Float(s) => s,
        ExprModel::Boolean(b) => if b {
            "true"@
        } else {
            "false"@
        },
        ExprModel::List(items) => drop_two(seq!['['] + listed(items, items.len() as int)),
        ExprModel::Call(name, args) => drop_two(name + seq!['('] + listed(args, args.len() as int))
            + seq![')'],
        ExprModel::Binary(op, lhs, rhs) => expr_text(*lhs) + symbol(op) + expr_text(*rhs),
    }
}

fn push_text(out: &mut Vec<char>, text: &str)
    ensures
        final(out)@ == old(out)@ + text@,
{
    let mut chars = chars_of(text);
    out.append(&mut chars);
}

fn take_two_off(out: &mut Vec<char>)
    ensures
        final(out)@ == drop_two(old(out)@),
{
    if out.len() < 2 {
        out.clear();
    } else {
        let n = out.len() - 2;
        out.truncate(n);
    }
    assert(out@ =~= drop_two(old(out)@));
}

fn symbol_of(op: BinaryOp) -> (r: &'static str)
    ensures
        r@ == symbol(op),
{
    match op {
        BinaryOp::Add => " + ",
        BinaryOp::Sub => " - ",
        BinaryOp::Div => " / ",
        BinaryOp::Mul => " * ",
        BinaryOp::Eq => " == ",
        BinaryOp::Neq => " != ",
        BinaryOp::GtEq => " >= ",
        BinaryOp::LtEq => " <= ",
        BinaryOp::Gt => " > ",
        BinaryOp::Lt => " < ",
    }
}

fn push_listed(out: &mut Vec<char>, es: &Vec<ExprAst>)
    ensures
        final(out)@ == old(out)@ + listed(exprs_model(es@), es.len() as int),
    decreases es, 0int,
{
    let ghost models = exprs_model(es@);
    let mut i: usize = 0;
    assert(out@ =~= old(out)@ + listed(models, 0));
    while i < es.len()
        invariant
            i <= es.len(),
            models == exprs_model(es@),
            out@ == old(out)@ + listed(models, i as int),
        decreases es.len() - i,
    {
        push_expr(out, &es[i]);
        out.push(',');
        out.push(' ');
        i += 1;
        assert(out@ =~= old(out)@ + listed(models, i as int));
    }
}

fn push_expr(out: &mut Vec<char>, e: &ExprAst)
    ensures
        final(out)@ == old(out)@ + expr_text(e@),
    decreases e, 1int,
{
    proof {
        reveal_with_fuel(expr_model, 2);
        reveal_with_fuel(leaf_model, 2);
    }
    let (op, lhs, rhs) = match e {
        ExprAst::Value { val } => {
            push_leaf(out, val);
            return ;
        },
        ExprAst::FunctionCall { name, args } => {
            let mut text: Vec<char> = chars_of(name.as_str());
            text.push('(');
            push_listed(&mut text, args);
            take_two_off(&mut text);
            text.push(')');
            out.append(&mut text);
            assert(out@ =~= old(out)@ + expr_text(e@));
            return ;
        },
        ExprAst::Addition { lhs, rhs } => (BinaryOp::Add, lhs, rhs),
        ExprAst::Subtraction { lhs, rhs } => (BinaryOp::Sub, lhs, rhs),
        ExprAst::Division { lhs, rhs } => (BinaryOp::Div, lhs, rhs),
        ExprAst::Multiplication { lhs, rhs } => (BinaryOp::Mul, lhs, rhs),
        ExprAst::Eq { lhs, rhs } => (BinaryOp::Eq, lhs, rhs),
        ExprAst::Neq { lhs, rhs } => (BinaryOp::Neq, lhs, rhs),
        ExprAst::GtEq { lhs, rhs } => (BinaryOp::GtEq, lhs, rhs),
        ExprAst::LtEq { lhs, rhs } => (BinaryOp::LtEq, lhs, rhs),
        ExprAst::Gt { lhs, rhs } => (BinaryOp::Gt, lhs, rhs),
        ExprAst::Lt { lhs, rhs } => (BinaryOp::Lt, lhs, rhs),
    };
    push_expr(out, lhs);
    push_text(out, symbol_of(op));
    push_expr(out, rhs);
    assert(out@ =~= old(out)@ + (expr_text(lhs@) + symbol(op) + expr_text(rhs@)));
}

fn push_leaf(out: &mut Vec<char>, v: &EvalValue)
    ensures
        final(out)@ == old(out)@ + expr_text(v@),
    decreases v, 0int,
{
    match v {
        EvalValue::Reference { val } => push_text(out, val.as_str()),
        EvalValue::IntegerLiteral { val } => push_text(out, val.as_str()),
        EvalValue::Stringliteral { val } => push_text(out, val.as_str()),
        EvalValue::FloatLiteral { val } => push_text(out, val.as_str()),
        EvalValue::BooleanLiteral { val } => if *val {
            push_text(out, "true")
        } else {
            push_text(out, "false")
        },
        EvalValue::List { val } => {
            let mut text: Vec<char> = Vec::new();
            text.push('[');
            push_listed(&mut text, val);
            take_two_off(&mut text);
            out.append(&mut text);
            assert(out@ =~= old(out)@ + expr_text(v@));
        },
    }
}

/// A copy of `e`.
pub fn copy_expr(e: &ExprAst) -> (r: ExprAst)
    ensures
        r@ == e@,
    decreases e, 1int,
{
    proof {
        reveal_with_fuel(expr_model, 2);
        reveal_with_fuel(leaf_model, 2);
    }
    match e {
        ExprAst::Value { val } => ExprAst::Value { val: copy_leaf(val) },
        ExprAst::FunctionCall { name, args } => ExprAst::FunctionCall {
            name: name.clone(),
            args: copy_exprs(args),
        },
        ExprAst::Addition { lhs, rhs } => ExprAst::Addition {
            lhs: Box::new(copy_expr(lhs)),
            rhs: Box::new(copy_expr(rhs)),
        },
        ExprAst::Subtraction { lhs, rhs } => ExprAst::Subtraction {
            lhs: Box::new(copy_expr(lhs)),
            rhs: Box::new(copy_expr(rhs)),
        },
        ExprAst::Division { lhs, rhs } => ExprAst::Division {
            lhs: Box::new(copy_expr(lhs)),
            rhs: Box::new(copy_expr(rhs)),
        },
        ExprAst::Multiplication { lhs, rhs } => ExprAst::Multiplication {
            lhs: Box::new(copy_expr(lhs)),
            rhs: Box::new(copy_expr(rhs)),
        },
        ExprAst::Eq { lhs, rhs } => ExprAst::Eq {
            lhs: Box::new(copy_expr(lhs)),
            rhs: Box::new(copy_expr(rhs)),
        },
        ExprAst::Neq { lhs, rhs } => ExprAst::Neq {
            lhs: Box::new(copy_expr(lhs)),
            rhs: Box::new(copy_expr(rhs)),
        },
        ExprAst::GtEq { lhs, rhs } => ExprAst::GtEq {
            lhs: Box::new(copy_expr(lhs)),
            rhs: Box::new(copy_expr(rhs)),
        },
        ExprAst::LtEq { lhs, rhs } => ExprAst::LtEq {
            lhs: Box::new(copy_expr(lhs)),
            rhs: Box::new(copy_expr(rhs)),
        },
        ExprAst::Gt { lhs, rhs } => ExprAst::Gt {
            lhs: Box::new(copy_expr(lhs)),
            rhs: Box::new(copy_expr(rhs)),
        },
        ExprAst::Lt { lhs, rhs } => ExprAst::Lt {
            lhs: Box::new(copy_expr(lhs)),
            rhs: Box::new(copy_expr(rhs)),
        },
    }
}

/// A copy of `v`.
pub fn copy_leaf(v: &EvalValue) -> (r: EvalValue)
    ensures
        r@ == v@,
    decreases v, 0int,
{
    match v {
        EvalValue::Reference { val } => EvalValue::Reference { val: val.clone() },
        EvalValue::IntegerLiteral { val } => EvalValue::IntegerLiteral { val: val.clone() },
        EvalValue::Stringliteral { val } => EvalValue::Stringliteral { val: val.clone() },
        EvalValue::FloatLiteral { val } => EvalValue::FloatLiteral { val: val.clone() },
        EvalValue::BooleanLiteral { val } => EvalValue::BooleanLiteral { val: *val },
        EvalValue::List { val } => EvalValue::List { val: copy_exprs(val) },
    }
}

/// A copy of each of `es`, in order.
pub fn copy_exprs(es: &Vec<ExprAst>) -> (r: Vec<ExprAst>)
    ensures
        exprs_model(r@) == exprs_model(es@),
    decreases es, 0int,
{
    let mut out: Vec<ExprAst> = Vec::new();
    let mut i: usize = 0;
    while i < es.len()
        invariant
            i <= es.len(),
            out.len() == i,
            exprs_model(out@) == exprs_model(es@).take(i as int),
        decreases es.len() - i,
    {
        let c = copy_expr(&es[i]);
        out.push(c);
        i += 1;
        assert(exprs_model(out@) =~= exprs_model(es@).take(i as int));
    }
    assert(exprs_model(es@).take(i as int) =~= exprs_model(es@));
    out
}

impl Clone for ExprAst {
    fn clone(&self) -> (r: Self)
        ensures
            r@ == self@,
    {
        copy_expr(self)
    }
}

impl Clone for EvalValue {
    fn clone(&self) -> (r: Self)
        ensures
            r@ == self@,
    {
        copy_leaf(self)
    }
}

/// The number that `s` writes, where it writes one that 32 bits hold.
pub open spec fn parse_i32(s: Seq<char>) -> Option<i32> {
    match parse_i64(s) {
        Some(v) => if i32::MIN <= v <= i32::MAX {
            Some(v as i32)
        } else {
            None
        },
        None => None,
    }
}

impl ExprAst {
    /// The text of the expression.
    pub fn to_string(&self) -> (r: String)
        ensures
            r@ == expr_text(self@),
    {
        let mut out: Vec<char> = Vec::new();
        push_expr(&mut out, self);
        assert(out@ =~= expr_text(self@));
        string_of(&out)
    }
}

impl EvalValue {
    /// The text of the leaf.
    pub fn to_string(&self) -> (r: String)
        ensures
            r@ == expr_text(self@),
    {
        let mut out: Vec<char> = Vec::new();
        push_leaf(&mut out, self);
        assert(out@ =~= expr_text(self@));
        string_of(&out)
    }

    /// The number of an integer literal that 32 bits hold.
    pub fn get_int(&self) -> (r: i32)
        requires
            self@ matches ExprModel::Integer(text) && parse_i32(text) is Some,
        ensures
            self@ matches ExprModel::Integer(text) && Some(r) == parse_i32(text),
    {
        match self {
            EvalValue::IntegerLiteral { val } => match parse_int(val.as_str()) {
                Some(v) => v as i32,
                None => 0,
            },
            _ => 0,
        }
    }

    /// The truth value of a boolean literal.
    pub fn get_bool(&self) -> (r: bool)
        requires
            self@ is Boolean,
        ensures
            self@ == ExprModel::Boolean(r),
    {
        match self {
            EvalValue::BooleanLiteral { val } => *val,
            _ => false,
        }
    }

    /// The text of a string literal.
    pub fn get_string(&self) -> (r: String)
        requires
            self@ is Text,
        ensures
            self@ == ExprModel::Text(r@),
    {
        match self {
            EvalValue::Stringliteral { val } => val.clone(),
            _ => String::new(),
        }
    }

    /// What `hash` holds under the name of a reference, copied.
    pub fn get_reference(&self, hash: &StringHashMap<EvalValue>) -> (r: EvalValue)
        requires
            self@ matches ExprModel::Reference(name) && hash@.contains_key(name),
        ensures
            self@ matches ExprModel::Reference(name) && r@ == hash@[name]@,
    {
        match self {
            EvalValue::Reference { val } => match hash.get(val.as_str()) {
                Some(found) => copy_leaf(found),
                None => EvalValue::BooleanLiteral { val: false },
            },
            _ => EvalValue::BooleanLiteral { val: false },
        }
    }
}

} // verus!
