//! The float literals of a program.

use crate::eval_parser::expr_model;
use crate::eval_parser::exprs_model;
use crate::eval_parser::leaf_model;
use crate::eval_parser::EvalValue;
use crate::eval_parser::ExprAst;
use crate::eval_parser::ExprModel;
use crate::parser::block_model;
use crate::parser::branches_model;
use crate::parser::Statement;
use crate::parser::StatementModel;
use crate::value::names_model;
use vstd::prelude::*;

verus! {

broadcast use vstd::std_specs::vec::group_vec_axioms;

/// The float literals of an expression, in the order of the source.
pub open spec fn floats_in_expr(e: ExprModel) -> Seq<Seq<char>>
    decreases e, 0int,
{
    match e {
        ExprModel::Float(text) => seq![text],
        ExprModel::List(items) => floats_in_all(items, items.len() as int),
        ExprModel::Call(_, args) => floats_in_all(args, args.len() as int),
        ExprModel::Binary(_, lhs, rhs) => floats_in_expr(*lhs) + floats_in_expr(*rhs),
        _ => Seq::empty(),
    }
}

/// The float literals of the first `n` of `es`, in the order of the source.
pub open spec fn floats_in_all(es: Seq<ExprModel>, n: int) -> Seq<Seq<char>>
    decreases es, n,
{
    if n <= 0 || n > es.len() {
        Seq::empty()
    } else {
        floats_in_all(es, n - 1) + floats_in_expr(es[n - 1])
    }
}

/// The float literals of a statement, in the order of the source.
pub open spec fn floats_in_statement(s: StatementModel) -> Seq<Seq<char>>
    decreases s, 0int,
{
    match s {
        StatementModel::VariableAssignment { value, .. } => floats_in_expr(value),
        StatementModel::VariableMultiAssignment { value, .. } => floats_in_expr(value),
        StatementModel::VariableReassignment { value, .. } => floats_in_expr(value),
        StatementModel::FunctionCall { args, .. } => floats_in_all(args, args.len() as int),
        StatementModel::FunctionDefinition { body, .. } => floats_in_block(body, body.len() as int),
        StatementModel::Conditional { condition, body, else_if_conditions, else_body } => {
            floats_in_expr(condition) + floats_in_block(body, body.len() as int)
                + floats_in_branches(else_if_conditions, else_if_conditions.len() as int)
                + match else_body {
                Some(b) => floats_in_block(b, b.len() as int),
                None => Seq::empty(),
            }
        },
        StatementModel::ForLoop { start, end, body, .. } => floats_in_expr(start) + floats_in_expr(
            end,
        ) + floats_in_block(body, body.len() as int),
        StatementModel::WhileLoop { condition, body } => floats_in_expr(condition) + floats_in_block(
            body,
            body.len() as int,
        ),
        StatementModel::Return { returns: values } => floats_in_all(values, values.len() as int),
        _ => Seq::empty(),
    }
}

/// The float literals of the first `n` of `statements`, in the order of the source.
pub open spec fn floats_in_block(statements: Seq<StatementModel>, n: int) -> Seq<Seq<char>>
    decreases statements, n,
{
    if n <= 0 || n > statements.len() {
        Seq::empty()
    } else {
        floats_in_block(statements, n - 1) + floats_in_statement(statements[n - 1])
    }
}

/// The float literals of the first `n` of `branches`, in the order of the source.
pub open spec fn floats_in_branches(branches: Seq<(ExprModel, Seq<StatementModel>)>, n: int) -> Seq<
    Seq<char>,
>
    decreases branches, n,
{
    if n <= 0 || n > branches.len() {
        Seq::empty()
    } else {
        floats_in_branches(branches, n - 1) + floats_in_expr(branches[n - 1].0) + floats_in_block(
            branches[n - 1].1,
            branches[n - 1].1.len() as int,
        )
    }
}

fn gather_expr(out: &mut Vec<String>, e: &ExprAst)
    ensures
        names_model(final(out)@) == names_model(old(out)@) + floats_in_expr(e@),
    decreases e, 1int,
{
    proof {
        reveal_with_fuel(expr_model, 2);
        reveal_with_fuel(leaf_model, 2);
    }
    let ghost start = names_model(out@);
    let (lhs, rhs) = match e {
        ExprAst::Value { val } => {
            match val {
                EvalValue::FloatLiteral { val } => {
                    let text = val.clone();
                    let ghost before = out@;
                    out.push(text);
                    assert(names_model(before.push(text)) =~= names_model(before).push(text@));
                    assert(names_model(out@) =~= start + seq![val@]);
                },
                EvalValue::List { val } => {
                    gather_all(out, val);
                },
                _ => {
                    assert(start + Seq::<Seq<char>>::empty() =~= start);
                },
            }
            return ;
        },
        ExprAst::FunctionCall { args, .. } => {
            gather_all(out, args);
            return ;
        },
        ExprAst::Addition { lhs, rhs } => (lhs, rhs),
        ExprAst::Subtraction { lhs, rhs } => (lhs, rhs),
        ExprAst::Division { lhs, rhs } => (lhs, rhs),
        ExprAst::Multiplication { lhs, rhs } => (lhs, rhs),
        ExprAst::Eq { lhs, rhs } => (lhs, rhs),
        ExprAst::Neq { lhs, rhs } => (lhs, rhs),
        ExprAst::GtEq { lhs, rhs } => (lhs, rhs),
        ExprAst::LtEq { lhs, rhs } => (lhs, rhs),
        ExprAst::Gt { lhs, rhs } => (lhs, rhs),
        ExprAst::Lt { lhs, rhs } => (lhs, rhs),
    };
    gather_expr(out, lhs);
    gather_expr(out, rhs);
    assert(names_model(out@) =~= start + (floats_in_expr(lhs@) + floats_in_expr(rhs@)));
}

fn gather_all(out: &mut Vec<String>, es: &Vec<ExprAst>)
    ensures
        names_model(final(out)@) == names_model(old(out)@) + floats_in_all(
            exprs_model(es@),
            es.len() as int,
        ),
    decreases es, 0int,
{
    let ghost start = names_model(out@);
    let ghost models = exprs_model(es@);
    let mut i: usize = 0;
    assert(start + floats_in_all(models, 0) =~= start);
    while i < es.len()
        invariant
            i <= es.len(),
            models == exprs_model(es@),
            names_model(out@) == start + floats_in_all(models, i as int),
        decreases es.len() - i,
    {
        gather_expr(out, &es[i]);
        i += 1;
        assert(names_model(out@) =~= start + floats_in_all(models, i as int));
    }
}

fn gather_statement(out: &mut Vec<String>, s: &Statement)
    ensures
        names_model(final(out)@) == names_model(old(out)@) + floats_in_statement(s@),
    decreases s, 0int,
{
    let ghost start = names_model(out@);
    match s {
        Statement::VariableAssignment { value, .. } => gather_expr(out, value),
        Statement::VariableMultiAssignment { value, .. } => gather_expr(out, value),
        Statement::VariableReassignment { value, .. } => gather_expr(out, value),
        Statement::FunctionCall { args, .. } => gather_all(out, args),
        Statement::FunctionDefinition { body, .. } => gather_block(out, body),
        Statement::Conditional { condition, body, else_if_conditions, else_body } => {
            gather_expr(out, condition);
            gather_block(out, body);
            gather_branches(out, else_if_conditions);
            match else_body {
                Some(b) => {
                    gather_block(out, b);
                },
                None => {},
            }
            assert(names_model(out@) =~= start + floats_in_statement(s@));
        },
        Statement::ForLoop { start: from, end, body, .. } => {
            gather_expr(out, from);
            gather_expr(out, end);
            gather_block(out, body);
            assert(names_model(out@) =~= start + floats_in_statement(s@));
        },
        Statement::WhileLoop { condition, body } => {
            gather_expr(out, condition);
            gather_block(out, body);
            assert(names_model(out@) =~= start + floats_in_statement(s@));
        },
        Statement::Return { returns: values } => gather_all(out, values),
        _ => {
            assert(start + Seq::<Seq<char>>::empty() =~= start);
        },
    }
}

fn gather_branches(out: &mut Vec<String>, branches: &Vec<(ExprAst, Vec<Statement>)>)
    ensures
        names_model(final(out)@) == names_model(old(out)@) + floats_in_branches(
            branches_model(branches@),
            branches.len() as int,
        ),
    decreases branches, 0int,
{
    let ghost start = names_model(out@);
    let ghost models = branches_model(branches@);
    let mut i: usize = 0;
    assert(start + floats_in_branches(models, 0) =~= start);
    while i < branches.len()
        invariant
            i <= branches.len(),
            models == branches_model(branches@),
            names_model(out@) == start + floats_in_branches(models, i as int),
        decreases branches.len() - i,
    {
        gather_expr(out, &branches[i].0);
        gather_block(out, &branches[i].1);
        i += 1;
        assert(names_model(out@) =~= start + floats_in_branches(models, i as int));
    }
}

fn gather_block(out: &mut Vec<String>, statements: &Vec<Statement>)
    ensures
        names_model(final(out)@) == names_model(old(out)@) + floats_in_block(
            block_model(statements@),
            statements.len() as int,
        ),
    decreases statements, 1int,
{
    let ghost start = names_model(out@);
    let ghost models = block_model(statements@);
    let mut i: usize = 0;
    assert(start + floats_in_block(models, 0) =~= start);
    while i < statements.len()
        invariant
            i <= statements.len(),
            models == block_model(statements@),
            names_model(out@) == start + floats_in_block(models, i as int),
        decreases statements.len() - i,
    {
        gather_statement(out, &statements[i]);
        i += 1;
        assert(names_model(out@) =~= start + floats_in_block(models, i as int));
    }
}

/// The float literals of a program, in the order of the source: the texts that the table
/// of float literals has to list for the program to compile.
pub fn float_literals(statements: &Vec<Statement>) -> (r: Vec<String>)
    ensures
        names_model(r@) == floats_in_block(block_model(statements@), statements.len() as int),
{
    let mut out: Vec<String> = Vec::new();
    assert(names_model(out@) =~= Seq::empty());
    gather_block(&mut out, statements);
    assert(names_model(out@) =~= floats_in_block(block_model(statements@), statements.len() as int));
    out
}

} // verus!
