//! Copies of statements.

use crate::eval_parser::ExprAst;
use crate::expr_text::copy_expr;
use crate::expr_text::copy_exprs;
use crate::parser::block_model;
use crate::parser::branches_model;
use crate::parser::Statement;
use crate::value::names_model;
use vstd::prelude::*;

verus! {

broadcast use vstd::std_specs::vec::group_vec_axioms;

/// A copy of each of `names`, in order.
pub fn copy_names(names: &Vec<String>) -> (r: Vec<String>)
    ensures
        names_model(r@) == names_model(names@),
{
    let mut out: Vec<String> = Vec::new();
    let mut i: usize = 0;
    while i < names.len()
        invariant
            i <= names.len(),
            out.len() == i,
            names_model(out@) == names_model(names@).take(i as int),
        decreases names.len() - i,
    {
        let name = names[i].clone();
        out.push(name);
        i += 1;
        assert(names_model(out@) =~= names_model(names@).take(i as int));
    }
    assert(names_model(names@).take(i as int) =~= names_model(names@));
    out
}

/// A copy of `s`.
pub fn copy_statement(s: &Statement) -> (r: Statement)
    ensures
        r@ == s@,
    decreases s, 0int,
{
    match s {
        Statement::VariableAssignment { name, value } => Statement::VariableAssignment {
            name: name.clone(),
            value: copy_expr(value),
        },
        Statement::VariableMultiAssignment { variables, value } => Statement::VariableMultiAssignment {
            variables: copy_names(variables),
            value: copy_expr(value),
        },
        Statement::VariableReassignment { name, value } => Statement::VariableReassignment {
            name: name.clone(),
            value: copy_expr(value),
        },
        Statement::FunctionCall { name, args } => Statement::FunctionCall {
            name: name.clone(),
            args: copy_exprs(args),
        },
        Statement::FunctionDefinition { name, args, body } => Statement::FunctionDefinition {
            name: name.clone(),
            args: copy_names(args),
            body: copy_block(body),
        },
        Statement::Conditional { condition, body, else_if_conditions, else_body } => {
            let last = match else_body {
                Some(b) => Some(copy_block(b)),
                None => None,
            };
            Statement::Conditional {
                condition: copy_expr(condition),
                body: copy_block(body),
                else_if_conditions: copy_branches(else_if_conditions),
                else_body: last,
            }
        },
        Statement::ForLoop { var_name, start, end, body } => Statement::ForLoop {
            var_name: var_name.clone(),
            start: copy_expr(start),
            end: copy_expr(end),
            body: copy_block(body),
        },
        Statement::WhileLoop { condition, body } => Statement::WhileLoop {
            condition: copy_expr(condition),
            body: copy_block(body),
        },
        Statement::Break => Statement::Break,
        Statement::Continue => Statement::Continue,
        Statement::Return { returns: values } => Statement::Return { returns: copy_exprs(values) },
        Statement::ClassDeclaration { class_name, members } => Statement::ClassDeclaration {
            class_name: class_name.clone(),
            members: copy_names(members),
        },
    }
}

/// A copy of each of `statements`, in order.
pub fn copy_block(statements: &Vec<Statement>) -> (r: Vec<Statement>)
    ensures
        block_model(r@) == block_model(statements@),
    decreases statements, 1int,
{
    let mut out: Vec<Statement> = Vec::new();
    let mut i: usize = 0;
    while i < statements.len()
        invariant
            i <= statements.len(),
            out.len() == i,
            block_model(out@) == block_model(statements@).take(i as int),
        decreases statements.len() - i,
    {
        let c = copy_statement(&statements[i]);
        out.push(c);
        i += 1;
        assert(block_model(out@) =~= block_model(statements@).take(i as int));
    }
    assert(block_model(statements@).take(i as int) =~= block_model(statements@));
    out
}

/// A copy of each of `branches`, in order.
pub fn copy_branches(branches: &Vec<(ExprAst, Vec<Statement>)>) -> (r: Vec<(ExprAst, Vec<Statement>)>)
    ensures
        branches_model(r@) == branches_model(branches@),
    decreases branches, 0int,
{
    let mut out: Vec<(ExprAst, Vec<Statement>)> = Vec::new();
    let mut i: usize = 0;
    while i < branches.len()
        invariant
            i <= branches.len(),
            out.len() == i,
            branches_model(out@) == branches_model(branches@).take(i as int),
        decreases branches.len() - i,
    {
        let condition = copy_expr(&branches[i].0);
        let body = copy_block(&branches[i].1);
        out.push((condition, body));
        i += 1;
        assert(branches_model(out@) =~= branches_model(branches@).take(i as int));
    }
    assert(branches_model(branches@).take(i as int) =~= branches_model(branches@));
    out
}

impl Clone for Statement {
    fn clone(&self) -> (r: Self)
        ensures
            r@ == self@,
    {
        copy_statement(self)
    }
}

} // verus!
