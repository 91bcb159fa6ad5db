//! Which assignments introduce a variable.
//!
//! A source text may write `name = value` both to introduce a variable and to change one.
//! Read in the order of the text, an assignment to a plain name that no assignment before it
//! in its own block or in a block around it has introduced, and that is no parameter of a
//! function around it, is the one that introduces the variable; every other one changes it.

use crate::copy::copy_names;
use crate::eval_parser::ExprAst;
use crate::eval_parser::ExprModel;
use crate::expr_text::copy_expr;
use crate::expr_text::copy_exprs;
use crate::parser::block_model;
use crate::parser::branches_model;
use crate::parser::Statement;
use crate::parser::StatementModel;
use crate::text::contains_dot;
use crate::text::has_dot;
use crate::text::text_eq;
use crate::value::names_model;
use vstd::prelude::*;

verus! {

broadcast use vstd::std_specs::vec::group_vec_axioms;

/// The statement `s` where the names `known` are introduced already, and the names that are
/// introduced after it. A change of a plain name that is not among `known` becomes the
/// assignment that introduces it. What a block inside `s` introduces is known inside that
/// block only; the parameters of a function are known in its body.
pub open spec fn declared_statement(s: StatementModel, known: Seq<Seq<char>>) -> (
    StatementModel,
    Seq<Seq<char>>,
)
    decreases s, 0int,
{
    match s {
        StatementModel::VariableReassignment { name, value } => if !has_dot(name) && !known.contains(
            name,
        ) {
            (StatementModel::VariableAssignment { name, value }, known.push(name))
        } else {
            (s, known)
        },
        StatementModel::VariableAssignment { name, value } => (s, known.push(name)),
        StatementModel::VariableMultiAssignment { variables, value } => (s, known + variables),
        StatementModel::Conditional { condition, body, else_if_conditions, else_body } => (
            StatementModel::Conditional {
                condition,
                body: declared_block(body, known),
                else_if_conditions: declared_branches(
                    else_if_conditions,
                    else_if_conditions.len() as int,
                    known,
                ),
                else_body: match else_body {
                    Some(b) => Some(declared_block(b, known)),
                    None => None,
                },
            },
            known,
        ),
        StatementModel::WhileLoop { condition, body } => (
            StatementModel::WhileLoop { condition, body: declared_block(body, known) },
            known,
        ),
        StatementModel::ForLoop { var_name, start, end, body } => (
            StatementModel::ForLoop {
                var_name,
                start,
                end,
                body: declared_block(body, known.push(var_name)),
            },
            known,
        ),
        StatementModel::FunctionDefinition { name, args, body } => (
            StatementModel::FunctionDefinition {
                name,
                args,
                body: declared_block(body, known + args),
            },
            known,
        ),
        _ => (s, known),
    }
}

/// The first `n` of `statements` where the names `known` are introduced already, and the
/// names that are introduced after them.
pub open spec fn declared_statements(statements: Seq<StatementModel>, n: int, known: Seq<Seq<char>>) -> (
    Seq<StatementModel>,
    Seq<Seq<char>>,
)
    decreases statements, n,
{
    if n <= 0 || n > statements.len() {
        (Seq::empty(), known)
    } else {
        let before = declared_statements(statements, n - 1, known);
        let last = declared_statement(statements[n - 1], before.1);
        (before.0.push(last.0), last.1)
    }
}

/// The block `statements` where the names `known` are introduced already.
pub open spec fn declared_block(statements: Seq<StatementModel>, known: Seq<Seq<char>>) -> Seq<
    StatementModel,
>
    decreases statements, statements.len() + 1,
{
    declared_statements(statements, statements.len() as int, known).0
}

/// The first `n` of the `else if` branches `branches` where the names `known` are
/// introduced already.
pub open spec fn declared_branches(
    branches: Seq<(ExprModel, Seq<StatementModel>)>,
    n: int,
    known: Seq<Seq<char>>,
) -> Seq<(ExprModel, Seq<StatementModel>)>
    decreases branches, n,
{
    if n <= 0 || n > branches.len() {
        Seq::empty()
    } else {
        declared_branches(branches, n - 1, known).push(
            (branches[n - 1].0, declared_block(branches[n - 1].1, known)),
        )
    }
}

/// Whether `name` is among `names`.
pub fn knows(names: &Vec<String>, name: &str) -> (r: bool)
    ensures
        r == names_model(names@).contains(name@),
{
    let mut i: usize = 0;
    while i < names.len()
        invariant
            i <= names.len(),
            forall|k: int| 0 <= k < i ==> names_model(names@)[k] != name@,
        decreases names.len() - i,
    {
        if text_eq(names[i].as_str(), name) {
            assert(names_model(names@)[i as int] == name@);
            return true;
        }
        i += 1;
    }
    false
}

fn known_with(known: &Vec<String>, names: &Vec<String>) -> (r: Vec<String>)
    ensures
        names_model(r@) == names_model(known@) + names_model(names@),
{
    let mut out = copy_names(known);
    let ghost first = names_model(out@);
    let mut i: usize = 0;
    assert(names_model(out@) =~= first + names_model(names@).take(0));
    while i < names.len()
        invariant
            i <= names.len(),
            first == names_model(known@),
            names_model(out@) == first + names_model(names@).take(i as int),
        decreases names.len() - i,
    {
        let ghost before = out@;
        let name = names[i].clone();
        out.push(name);
        i += 1;
        assert(out@ == before.push(name));
        assert(names_model(before.push(name)) =~= names_model(before).push(name@));
        assert(names_model(names@).take(i as int) =~= names_model(names@).take(i - 1).push(name@));
        assert(names_model(out@) =~= first + names_model(names@).take(i as int));
    }
    assert(names_model(names@).take(i as int) =~= names_model(names@));
    out
}

fn note(known: &mut Vec<String>, name: &String)
    ensures
        names_model(final(known)@) == names_model(old(known)@).push(name@),
{
    let copy = name.clone();
    known.push(copy);
    assert(names_model(known@) =~= names_model(old(known)@).push(name@));
}

fn note_all(known: &mut Vec<String>, names: &Vec<String>)
    ensures
        names_model(final(known)@) == names_model(old(known)@) + names_model(names@),
{
    let all = known_with(known, names);
    *known = all;
}

/// The statement `s` where the names of `known` are introduced already; `known` then holds
/// the names that are introduced after it.
pub fn declare_statement(s: &Statement, known: &mut Vec<String>) -> (r: Statement)
    ensures
        (r@, names_model(final(known)@)) == declared_statement(s@, names_model(old(known)@)),
    decreases s, 0int,
{
    let ghost given = names_model(known@);
    match s {
        Statement::VariableReassignment { name, value } => {
            if !contains_dot(name.as_str()) && !knows(known, name.as_str()) {
                note(known, name);
                Statement::VariableAssignment { name: name.clone(), value: copy_expr(value) }
            } else {
                Statement::VariableReassignment { name: name.clone(), value: copy_expr(value) }
            }
        },
        Statement::VariableAssignment { name, value } => {
            note(known, name);
            Statement::VariableAssignment { name: name.clone(), value: copy_expr(value) }
        },
        Statement::VariableMultiAssignment { variables, value } => {
            note_all(known, variables);
            Statement::VariableMultiAssignment {
                variables: copy_names(variables),
                value: copy_expr(value),
            }
        },
        Statement::FunctionCall { name, args } => Statement::FunctionCall {
            name: name.clone(),
            args: copy_exprs(args),
        },
        Statement::FunctionDefinition { name, args, body } => {
            let inside = known_with(known, args);
            Statement::FunctionDefinition {
                name: name.clone(),
                args: copy_names(args),
                body: declare_block(body, &inside),
            }
        },
        Statement::Conditional { condition, body, else_if_conditions, else_body } => {
            let last = match else_body {
                Some(b) => Some(declare_block(b, known)),
                None => None,
            };
            Statement::Conditional {
                condition: copy_expr(condition),
                body: declare_block(body, known),
                else_if_conditions: declare_branches(else_if_conditions, known),
                else_body: last,
            }
        },
        Statement::ForLoop { var_name, start, end, body } => {
            let mut inside = copy_names(known);
            note(&mut inside, var_name);
            Statement::ForLoop {
                var_name: var_name.clone(),
                start: copy_expr(start),
                end: copy_expr(end),
                body: declare_block(body, &inside),
            }
        },
        Statement::WhileLoop { condition, body } => Statement::WhileLoop {
            condition: copy_expr(condition),
            body: declare_block(body, known),
        },
        Statement::Break => Statement::Break,
        Statement::Continue => Statement::Continue,
        Statement::Return { returns: values } => Statement::Return { returns: copy_exprs(values) },
        Statement::ClassDeclaration { class_name, members } => Statement::ClassDeclaration {
            class_name: class_name.clone(),
            members: copy_names(members),
        },
    }
}

/// The block `statements` where the names of `known` are introduced already.
pub fn declare_block(statements: &Vec<Statement>, known: &Vec<String>) -> (r: Vec<Statement>)
    ensures
        block_model(r@) == declared_block(block_model(statements@), names_model(known@)),
    decreases statements, 1int,
{
    let ghost sm = block_model(statements@);
    let ghost given = names_model(known@);
    let mut inside = copy_names(known);
    let mut out: Vec<Statement> = Vec::new();
    let mut i: usize = 0;
    assert(block_model(out@) =~= Seq::empty());
    while i < statements.len()
        invariant
            i <= statements.len(),
            out.len() == i,
            sm == block_model(statements@),
            (block_model(out@), names_model(inside@)) == declared_statements(sm, i as int, given),
        decreases statements.len() - i,
    {
        let ghost before = block_model(out@);
        let c = declare_statement(&statements[i], &mut inside);
        out.push(c);
        i += 1;
        assert(block_model(out@) =~= before.push(c@));
    }
    out
}

/// The `else if` branches `branches` where the names of `known` are introduced already.
pub fn declare_branches(branches: &Vec<(ExprAst, Vec<Statement>)>, known: &Vec<String>) -> (r: Vec<
    (ExprAst, Vec<Statement>),
>)
    ensures
        branches_model(r@) == declared_branches(
            branches_model(branches@),
            branches.len() as int,
            names_model(known@),
        ),
    decreases branches, 0int,
{
    let ghost bm = branches_model(branches@);
    let ghost given = names_model(known@);
    let mut out: Vec<(ExprAst, Vec<Statement>)> = Vec::new();
    let mut i: usize = 0;
    assert(branches_model(out@) =~= Seq::empty());
    while i < branches.len()
        invariant
            i <= branches.len(),
            out.len() == i,
            bm == branches_model(branches@),
            given == names_model(known@),
            branches_model(out@) == declared_branches(bm, i as int, given),
        decreases branches.len() - i,
    {
        let ghost before = branches_model(out@);
        let condition = copy_expr(&branches[i].0);
        let body = declare_block(&branches[i].1, known);
        out.push((condition, body));
        i += 1;
        assert(branches_model(out@) =~= before.push((bm[i - 1].0, declared_block(bm[i - 1].1, given))));
    }
    out
}

/// The program `statements` with each first assignment to a name made the assignment that
/// introduces it.
pub fn declare(statements: &Vec<Statement>) -> (r: Vec<Statement>)
    ensures
        block_model(r@) == declared_block(block_model(statements@), Seq::empty()),
{
    let known: Vec<String> = Vec::new();
    assert(names_model(known@) =~= Seq::empty());
    declare_block(statements, &known)
}

/// A change of a name that is known, or of a member, stays a change: it introduces nothing.
pub proof fn law_known_names_are_changed(name: Seq<char>, value: ExprModel, known: Seq<Seq<char>>)
    requires
        has_dot(name) || known.contains(name),
    ensures
        declared_statement(StatementModel::VariableReassignment { name, value }, known) == (
            StatementModel::VariableReassignment { name, value },
            known,
        ),
{
}

/// Of two assignments to one plain name that stand one after the other in a block in
/// which the name is not known, the first introduces the variable and the second changes
/// it.
pub proof fn law_first_assignment_introduces(name: Seq<char>, first: ExprModel, second: ExprModel)
    requires
        !has_dot(name),
    ensures
        declared_block(
            seq![
                StatementModel::VariableReassignment { name, value: first },
                StatementModel::VariableReassignment { name, value: second },
            ],
            Seq::empty(),
        ) == seq![
            StatementModel::VariableAssignment { name, value: first },
            StatementModel::VariableReassignment { name, value: second },
        ],
{
    let statements = seq![
        StatementModel::VariableReassignment { name, value: first },
        StatementModel::VariableReassignment { name, value: second },
    ];
    let none = Seq::<Seq<char>>::empty();
    reveal_with_fuel(declared_statements, 3);
    assert(!none.contains(name));
    assert(declared_statements(statements, 0, none) == (Seq::<StatementModel>::empty(), none));
    assert(declared_statement(statements[0], none) == (
        StatementModel::VariableAssignment { name, value: first },
        none.push(name),
    ));
    assert(none.push(name)[0] == name);
    assert(none.push(name).contains(name));
    assert(declared_statements(statements, 1, none).0 =~= seq![
        StatementModel::VariableAssignment { name, value: first },
    ]);
    assert(declared_statements(statements, 2, none).0 =~= seq![
        StatementModel::VariableAssignment { name, value: first },
        StatementModel::VariableReassignment { name, value: second },
    ]);
}

} // verus!
