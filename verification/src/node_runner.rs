//! A tree-walking evaluator for statements, without functions or classes.
//!
//! The evaluator keeps every value as the text of a literal. It computes with integers and
//! strings itself. What two numbers give where a float is among them, and what the division
//! of two integers gives, it takes from a table of answers that its caller keeps: where the
//! table has no answer it stops with the question, and the caller, who can compute with
//! floats, answers it and runs the program again.

use crate::error::ArithmeticError;
use crate::eval_parser::expr_model;
use crate::eval_parser::exprs_model;
use crate::eval_parser::leaf_model;
use crate::eval_parser::EvalValue;
use crate::eval_parser::ExprAst;
use crate::eval_parser::ExprModel;
use crate::expr_text::copy_leaf;
use crate::expr_text::expr_text;
use crate::expr_text::parse_i32;
use crate::format_law::splice;
use crate::format_law::spliced;
use crate::format_law::texts_model;
use crate::operators::BinaryOp;
use crate::parser::block_model;
use crate::parser::branches_model;
use crate::parser::statement_model;
use crate::parser::Statement;
use crate::parser::StatementModel;
use crate::text::chars_of;
use crate::value::names_model;
use crate::text::decimal;
use crate::text::decimal_text;
use crate::text::parse_int;
use crate::text::string_of;
use crate::text::text_eq;
use vstd::hash_map::StringHashMap;
use vstd::prelude::*;
use vstd::string::StringExecFns;

verus! {

broadcast use vstd::std_specs::vec::group_vec_axioms;

/// An operation on two numbers that the evaluator does not carry out itself. The operands
/// are integer or float literals.
#[derive(Debug, PartialEq)]
pub struct FloatQuestion {
    pub op: BinaryOp,
    pub lhs: EvalValue,
    pub rhs: EvalValue,
}

/// A [`FloatQuestion`] as a mathematical value.
pub struct QuestionModel {
    pub op: BinaryOp,
    pub lhs: ExprModel,
    pub rhs: ExprModel,
}

impl View for FloatQuestion {
    type V = QuestionModel;

    open spec fn view(&self) -> QuestionModel {
        QuestionModel { op: self.op, lhs: self.lhs@, rhs: self.rhs@ }
    }
}

/// A question with its answer: a float literal for an arithmetic operator, a boolean for a
/// comparison.
#[derive(Debug, PartialEq)]
pub struct FloatFact {
    pub question: FloatQuestion,
    pub answer: EvalValue,
}

/// A table of answers as a mathematical value.
pub open spec fn facts_model(facts: Seq<FloatFact>) -> Seq<(QuestionModel, ExprModel)> {
    Seq::new(facts.len(), |i: int| (facts[i].question@, facts[i].answer@))
}

/// Why the evaluator stops with a failure.
#[derive(Debug, PartialEq)]
pub enum RunnerError {
    /// A variable that does not exist.
    Name,
    /// An operand, a condition or an argument of a kind that does not fit.
    Type,
    /// A result that 32 bits do not hold.
    Arithmetic(ArithmeticError),
    /// A statement or a function that the evaluator does not know.
    Unsupported,
    /// The loops of the program have taken as many turns as they were allowed.
    OutOfSteps,
    /// `break` or `continue` outside a loop.
    OutsideLoop,
    /// The table has no answer to this question.
    Float(FloatQuestion),
}

/// A [`RunnerError`] as a mathematical value.
pub enum RunnerErrorModel {
    Name,
    Type,
    Arithmetic(ArithmeticError),
    Unsupported,
    OutOfSteps,
    OutsideLoop,
    Float(QuestionModel),
}

impl View for RunnerError {
    type V = RunnerErrorModel;

    open spec fn view(&self) -> RunnerErrorModel {
        match self {
            RunnerError::Name => RunnerErrorModel::Name,
            RunnerError::Type => RunnerErrorModel::Type,
            RunnerError::Arithmetic(e) => RunnerErrorModel::Arithmetic(*e),
            RunnerError::Unsupported => RunnerErrorModel::Unsupported,
            RunnerError::OutOfSteps => RunnerErrorModel::OutOfSteps,
            RunnerError::OutsideLoop => RunnerErrorModel::OutsideLoop,
            RunnerError::Float(q) => RunnerErrorModel::Float(q@),
        }
    }
}

/// The evaluator as a mathematical value: the variables by name, the names of the variables
/// in the order in which they were made, and for each block under way the number of
/// variables that it has made.
pub struct RunnerModel {
    pub locals: Map<Seq<char>, ExprModel>,
    pub tracker: Seq<Seq<char>>,
    pub scope: Seq<usize>,
}

/// The kind of a value: 1 for an integer, 2 for a string, 3 for a float, 4 for a boolean;
/// none for any other value.
pub open spec fn literal_kind(v: ExprModel) -> Option<int> {
    match v {
        ExprModel::Integer(_) => Some(1),
        ExprModel::Text(_) => Some(2),
        ExprModel::Float(_) => Some(3),
        ExprModel::Boolean(_) => Some(4),
        _ => None,
    }
}

/// The kind of the value `v`: that of a literal, and for a name that of the literal that
/// the variable holds.
pub open spec fn kind_of(locals: Map<Seq<char>, ExprModel>, v: ExprModel) -> Result<int, RunnerErrorModel> {
    match v {
        ExprModel::Reference(name) => if !locals.contains_key(name) {
            Err(RunnerErrorModel::Name)
        } else {
            match literal_kind(locals[name]) {
                Some(k) => Ok(k),
                None => Err(RunnerErrorModel::Type),
            }
        },
        _ => match literal_kind(v) {
            Some(k) => Ok(k),
            None => Err(RunnerErrorModel::Type),
        },
    }
}

/// The answer that the table gives to `question`: that of the first fact, at or after
/// `from`, with that question.
pub open spec fn answer_of(facts: Seq<(QuestionModel, ExprModel)>, question: QuestionModel, from: int) -> Option<
    ExprModel,
>
    decreases facts.len() - from,
{
    if from < 0 || from >= facts.len() {
        None
    } else if facts[from].0 == question {
        Some(facts[from].1)
    } else {
        answer_of(facts, question, from + 1)
    }
}

/// The number of an integer literal that 32 bits hold.
pub open spec fn int_of(v: ExprModel) -> Option<i32> {
    match v {
        ExprModel::Integer(text) => parse_i32(text),
        _ => None,
    }
}

/// An integer as a literal.
pub open spec fn int_literal(i: int) -> ExprModel {
    ExprModel::Integer(decimal(i))
}

/// What an operator gives on two integers: a sum, a difference or a product that 32 bits
/// hold, or the truth of a comparison. Division is not among them.
pub open spec fn on_integers(op: BinaryOp, a: int, b: int) -> Result<ExprModel, RunnerErrorModel> {
    let exact = match op {
        BinaryOp::Add => a + b,
        BinaryOp::Sub => a - b,
        _ => a * b,
    };
    match op {
        BinaryOp::Add | BinaryOp::Sub | BinaryOp::Mul => if i32::MIN <= exact <= i32::MAX {
            Ok(int_literal(exact))
        } else {
            Err(RunnerErrorModel::Arithmetic(ArithmeticError::Overflow))
        },
        BinaryOp::Eq => Ok(ExprModel::Boolean(a == b)),
        BinaryOp::Neq => Ok(ExprModel::Boolean(a != b)),
        BinaryOp::GtEq => Ok(ExprModel::Boolean(a >= b)),
        BinaryOp::LtEq => Ok(ExprModel::Boolean(a <= b)),
        BinaryOp::Gt => Ok(ExprModel::Boolean(a > b)),
        BinaryOp::Lt => Ok(ExprModel::Boolean(a < b)),
        BinaryOp::Div => Err(RunnerErrorModel::Type),
    }
}

/// What an operator gives on two strings: they can be joined and compared for equality.
pub open spec fn on_strings(op: BinaryOp, a: Seq<char>, b: Seq<char>) -> Result<ExprModel, RunnerErrorModel> {
    match op {
        BinaryOp::Add => Ok(ExprModel::Text(a + b)),
        BinaryOp::Eq => Ok(ExprModel::Boolean(a == b)),
        BinaryOp::Neq => Ok(ExprModel::Boolean(a != b)),
        _ => Err(RunnerErrorModel::Type),
    }
}

/// What the table answers to an operation on two numbers; the question where it has no
/// answer. An integer among the operands must be one that 32 bits hold.
pub open spec fn on_floats(
    op: BinaryOp,
    lhs: ExprModel,
    rhs: ExprModel,
    facts: Seq<(QuestionModel, ExprModel)>,
) -> Result<ExprModel, RunnerErrorModel> {
    if (lhs is Integer && int_of(lhs) is None) || (rhs is Integer && int_of(rhs) is None) || !(lhs
        is Integer || lhs is Float) || !(rhs is Integer || rhs is Float) {
        Err(RunnerErrorModel::Type)
    } else {
        let question = QuestionModel { op, lhs, rhs };
        match answer_of(facts, question, 0) {
            Some(answer) => Ok(answer),
            None => Err(RunnerErrorModel::Float(question)),
        }
    }
}

/// What an operator gives on two values of the kinds `a` and `b`.
///
/// Two integers are computed with, but for their division, which the table answers like
/// every operation with a float among its operands. Two strings can be joined and compared
/// for equality. Anything else is a type error.
pub open spec fn combined(
    op: BinaryOp,
    a: int,
    b: int,
    lhs: ExprModel,
    rhs: ExprModel,
    facts: Seq<(QuestionModel, ExprModel)>,
) -> Result<ExprModel, RunnerErrorModel> {
    if a == 1 && b == 1 {
        if op == BinaryOp::Div {
            on_floats(op, lhs, rhs, facts)
        } else {
            match (int_of(lhs), int_of(rhs)) {
                (Some(x), Some(y)) => on_integers(op, x as int, y as int),
                _ => Err(RunnerErrorModel::Type),
            }
        }
    } else if a == 2 && b == 2 {
        match (lhs, rhs) {
            (ExprModel::Text(x), ExprModel::Text(y)) => on_strings(op, x, y),
            _ => Err(RunnerErrorModel::Type),
        }
    } else if (a == 3 && b == 3) || (a == 1 && b == 3) || (a == 3 && b == 1) {
        on_floats(op, lhs, rhs, facts)
    } else {
        Err(RunnerErrorModel::Type)
    }
}

/// The texts of the first `n` of `values`, with a space between each two.
pub open spec fn spaced(values: Seq<ExprModel>, n: int) -> Seq<char>
    decreases n,
{
    if n <= 0 || n > values.len() {
        Seq::empty()
    } else if n == 1 {
        expr_text(values[0])
    } else {
        spaced(values, n - 1) + seq![' '] + expr_text(values[n - 1])
    }
}

/// The text with which a value fills a placeholder: that of a number or a string, `true` or
/// `false` for a boolean; none for any other value.
pub open spec fn filler(v: ExprModel) -> Option<Seq<char>> {
    match v {
        ExprModel::Integer(s) => Some(s),
        ExprModel::Text(s) => Some(s),
        ExprModel::Float(s) => Some(s),
        ExprModel::Boolean(b) => Some(
            if b {
                "true"@
            } else {
                "false"@
            },
        ),
        _ => None,
    }
}

/// What evaluating gives: what was written meanwhile, and the value.
pub struct Evaluated {
    pub written: Seq<char>,
    pub value: ExprModel,
}

/// What evaluating several expressions gives: what was written meanwhile, and the values.
pub struct EvaluatedAll {
    pub written: Seq<char>,
    pub values: Seq<ExprModel>,
}

/// The string that a call without a result stands for.
pub open spec fn none_value() -> ExprModel {
    ExprModel::Text("NONE"@)
}

/// The value of an expression, and what evaluating it writes.
///
/// A literal is its own value and a name the value of its variable. An operation
/// evaluates its left operand, then its right one, and combines them by their kinds. A call
/// of `print` or `println` writes its arguments with a space between each two and stands
/// for the string `NONE`; a call of `format` takes a string and replaces its `{}` by the
/// further arguments in one pass from the left. No other function can be called.
pub open spec fn eval(
    locals: Map<Seq<char>, ExprModel>,
    e: ExprModel,
    facts: Seq<(QuestionModel, ExprModel)>,
) -> Result<Evaluated, RunnerErrorModel>
    decreases e, 0int,
{
    match e {
        ExprModel::Reference(name) => if locals.contains_key(name) {
            Ok(Evaluated { written: Seq::empty(), value: locals[name] })
        } else {
            Err(RunnerErrorModel::Name)
        },
        ExprModel::Call(name, args) => eval_call(locals, name, args, facts),
        ExprModel::Binary(op, lhs, rhs) => match eval(locals, *lhs, facts) {
            Err(e) => Err(e),
            Ok(left) => match eval(locals, *rhs, facts) {
                Err(e) => Err(e),
                Ok(right) => match kind_of(locals, left.value) {
                    Err(e) => Err(e),
                    Ok(a) => match kind_of(locals, right.value) {
                        Err(e) => Err(e),
                        Ok(b) => match combined(op, a, b, left.value, right.value, facts) {
                            Err(e) => Err(e),
                            Ok(value) => Ok(Evaluated { written: left.written + right.written, value }),
                        },
                    },
                },
            },
        },
        _ => Ok(Evaluated { written: Seq::empty(), value: e }),
    }
}

/// The values of the first `n` of `es`, evaluated from the left, and what that writes.
pub open spec fn eval_all(
    locals: Map<Seq<char>, ExprModel>,
    es: Seq<ExprModel>,
    n: int,
    facts: Seq<(QuestionModel, ExprModel)>,
) -> Result<EvaluatedAll, RunnerErrorModel>
    decreases es, n,
{
    if n <= 0 || n > es.len() {
        Ok(EvaluatedAll { written: Seq::empty(), values: Seq::empty() })
    } else {
        match eval_all(locals, es, n - 1, facts) {
            Err(e) => Err(e),
            Ok(before) => match eval(locals, es[n - 1], facts) {
                Err(e) => Err(e),
                Ok(last) => Ok(
                    EvaluatedAll {
                        written: before.written + last.written,
                        values: before.values.push(last.value),
                    },
                ),
            },
        }
    }
}

/// What the arguments of `format` give: what evaluating them writes, the template, and the
/// texts to fill it with.
pub struct Gathered {
    pub written: Seq<char>,
    pub template: Seq<char>,
    pub fillers: Seq<Seq<char>>,
}

/// What the first `n` arguments of `format`, evaluated one after the other, give. The first
/// must be a string, the template; each later one must have a text to fill with. Of two
/// failures the one that comes first in this order is the failure of the call.
pub open spec fn format_args(
    locals: Map<Seq<char>, ExprModel>,
    args: Seq<ExprModel>,
    n: int,
    facts: Seq<(QuestionModel, ExprModel)>,
) -> Result<Gathered, RunnerErrorModel>
    decreases args, n,
{
    if n <= 0 || n > args.len() {
        Err(RunnerErrorModel::Type)
    } else if n == 1 {
        match eval(locals, args[0], facts) {
            Err(e) => Err(e),
            Ok(first) => match first.value {
                ExprModel::Text(template) => Ok(
                    Gathered { written: first.written, template, fillers: Seq::empty() },
                ),
                _ => Err(RunnerErrorModel::Type),
            },
        }
    } else {
        match format_args(locals, args, n - 1, facts) {
            Err(e) => Err(e),
            Ok(before) => match eval(locals, args[n - 1], facts) {
                Err(e) => Err(e),
                Ok(last) => match filler(last.value) {
                    Some(with) => Ok(
                        Gathered {
                            written: before.written + last.written,
                            template: before.template,
                            fillers: before.fillers.push(with),
                        },
                    ),
                    None => Err(RunnerErrorModel::Type),
                },
            },
        }
    }
}

/// What a call of `format` gives: the template with its `{}` replaced by the texts of the
/// further arguments, in one pass from the left.
pub open spec fn format_call(
    locals: Map<Seq<char>, ExprModel>,
    args: Seq<ExprModel>,
    facts: Seq<(QuestionModel, ExprModel)>,
) -> Result<Evaluated, RunnerErrorModel>
    decreases args, args.len() + 1,
{
    match format_args(locals, args, args.len() as int, facts) {
        Err(e) => Err(e),
        Ok(g) => Ok(
            Evaluated { written: g.written, value: ExprModel::Text(spliced(g.template, g.fillers)) },
        ),
    }
}

/// What a call gives, and what it writes.
pub open spec fn eval_call(
    locals: Map<Seq<char>, ExprModel>,
    name: Seq<char>,
    args: Seq<ExprModel>,
    facts: Seq<(QuestionModel, ExprModel)>,
) -> Result<Evaluated, RunnerErrorModel>
    decreases args, args.len() + 2,
{
    if name == "print"@ || name == "println"@ {
        match eval_all(locals, args, args.len() as int, facts) {
            Err(e) => Err(e),
            Ok(all) => {
                let line = spaced(all.values, all.values.len() as int);
                Ok(
                    Evaluated {
                        written: all.written + line + if name == "println"@ {
                            seq!['\n']
                        } else {
                            Seq::empty()
                        },
                        value: none_value(),
                    },
                )
            },
        }
    } else if name == "format"@ {
        format_call(locals, args, facts)
    } else {
        Err(RunnerErrorModel::Unsupported)
    }
}



/// What executing gives: the evaluator after it, what was written meanwhile, whether a
/// `break` (0) or a `continue` (1) is on its way to the loop around, and the number of turns
/// that loops may still take.
pub struct Ran {
    pub runner: RunnerModel,
    pub written: Seq<char>,
    pub signal: Option<u8>,
    pub fuel: nat,
}

/// The truth of a condition, and what evaluating it writes.
pub open spec fn condition(
    locals: Map<Seq<char>, ExprModel>,
    e: ExprModel,
    facts: Seq<(QuestionModel, ExprModel)>,
) -> Result<(Seq<char>, bool), RunnerErrorModel> {
    match eval(locals, e, facts) {
        Err(e) => Err(e),
        Ok(v) => match v.value {
            ExprModel::Boolean(b) => Ok((v.written, b)),
            _ => Err(RunnerErrorModel::Type),
        },
    }
}

/// `r` with `before` written before what `r` wrote.
pub open spec fn after_writing(before: Seq<char>, r: Result<Ran, RunnerErrorModel>) -> Result<
    Ran,
    RunnerErrorModel,
> {
    match r {
        Ok(ran) => Ok(Ran { written: before + ran.written, ..ran }),
        Err(e) => Err(e),
    }
}

/// `r` without the `break` or `continue` that is on its way.
pub open spec fn quiet(r: Result<Ran, RunnerErrorModel>) -> Result<Ran, RunnerErrorModel> {
    match r {
        Ok(ran) => Ok(Ran { signal: None, ..ran }),
        Err(e) => Err(e),
    }
}

/// The variables without those of the last `n` names of `tracker`.
pub open spec fn forgotten(locals: Map<Seq<char>, ExprModel>, tracker: Seq<Seq<char>>, n: int) -> Map<
    Seq<char>,
    ExprModel,
>
    decreases n,
{
    if n <= 0 || n > tracker.len() {
        locals
    } else {
        forgotten(locals, tracker, n - 1).remove(tracker[tracker.len() - n])
    }
}

/// What the end of a block does: the block's count of variables is taken off, and as many
/// variables, the last that were made, are forgotten.
pub open spec fn left(r: RunnerModel) -> Result<RunnerModel, RunnerErrorModel> {
    if r.scope.len() == 0 || r.scope.last() > r.tracker.len() {
        Err(RunnerErrorModel::Type)
    } else {
        let n = r.scope.last() as int;
        Ok(
            RunnerModel {
                locals: forgotten(r.locals, r.tracker, n),
                tracker: r.tracker.take(r.tracker.len() - n),
                scope: r.scope.drop_last(),
            },
        )
    }
}

/// What an assignment does: it makes a variable of the value, and counts it for the block.
pub open spec fn assigned(
    r: RunnerModel,
    name: Seq<char>,
    value: ExprModel,
    facts: Seq<(QuestionModel, ExprModel)>,
    fuel: nat,
) -> Result<Ran, RunnerErrorModel> {
    match eval(r.locals, value, facts) {
        Err(e) => Err(e),
        Ok(v) => if r.scope.len() == 0 {
            Err(RunnerErrorModel::Type)
        } else if r.scope.last() == usize::MAX {
            Err(RunnerErrorModel::Arithmetic(ArithmeticError::Overflow))
        } else {
            Ok(
                Ran {
                    runner: RunnerModel {
                        locals: r.locals.insert(name, v.value),
                        tracker: r.tracker.push(name),
                        scope: r.scope.update(r.scope.len() - 1, (r.scope.last() + 1) as usize),
                    },
                    written: v.written,
                    signal: None,
                    fuel,
                },
            )
        },
    }
}

/// What a reassignment does: it gives a variable, which must exist, a new value.
pub open spec fn reassigned(
    r: RunnerModel,
    name: Seq<char>,
    value: ExprModel,
    facts: Seq<(QuestionModel, ExprModel)>,
    fuel: nat,
) -> Result<Ran, RunnerErrorModel> {
    if !r.locals.contains_key(name) {
        Err(RunnerErrorModel::Name)
    } else {
        match eval(r.locals, value, facts) {
            Err(e) => Err(e),
            Ok(v) => Ok(
                Ran {
                    runner: RunnerModel { locals: r.locals.insert(name, v.value), ..r },
                    written: v.written,
                    signal: None,
                    fuel,
                },
            ),
        }
    }
}

/// What a call statement does: what the call writes.
pub open spec fn called(
    r: RunnerModel,
    name: Seq<char>,
    args: Seq<ExprModel>,
    facts: Seq<(QuestionModel, ExprModel)>,
    fuel: nat,
) -> Result<Ran, RunnerErrorModel> {
    match eval_call(r.locals, name, args, facts) {
        Err(e) => Err(e),
        Ok(v) => Ok(Ran { runner: r, written: v.written, signal: None, fuel }),
    }
}

/// What `break` (0) or `continue` (1) does: it is on its way to the loop around, which must
/// exist.
pub open spec fn signalled(r: RunnerModel, from_loop: bool, signal: u8, fuel: nat) -> Result<
    Ran,
    RunnerErrorModel,
> {
    if from_loop {
        Ok(Ran { runner: r, written: Seq::empty(), signal: Some(signal), fuel })
    } else {
        Err(RunnerErrorModel::OutsideLoop)
    }
}

/// What one statement does.
///
/// An assignment makes a variable of its value and counts it for the block. A reassignment
/// needs the variable to exist. A conditional runs the first body whose condition is true,
/// or the `else` body, of which a `break` or `continue` does not reach the loop. A loop
/// runs its body as long as its condition is true; `break` ends it and `continue` goes to
/// its next turn. Each turn of a loop takes one of the turns that are allowed.
pub open spec fn executed(
    r: RunnerModel,
    s: StatementModel,
    from_loop: bool,
    facts: Seq<(QuestionModel, ExprModel)>,
    fuel: nat,
) -> Result<Ran, RunnerErrorModel>
    decreases fuel, s, 2int,
{
    match s {
        StatementModel::VariableAssignment { name, value } => assigned(r, name, value, facts, fuel),
        StatementModel::VariableReassignment { name, value } => reassigned(
            r,
            name,
            value,
            facts,
            fuel,
        ),
        StatementModel::FunctionCall { name, args } => called(r, name, args, facts, fuel),
        StatementModel::Conditional { .. } => chosen(r, s, from_loop, facts, fuel),
        StatementModel::WhileLoop { .. } => looped(r, s, facts, fuel),
        StatementModel::Break => signalled(r, from_loop, 0u8, fuel),
        StatementModel::Continue => signalled(r, from_loop, 1u8, fuel),
        _ => Err(RunnerErrorModel::Unsupported),
    }
}

/// What a conditional does: its body where its condition is true, else what its other
/// branches do.
pub open spec fn chosen(
    r: RunnerModel,
    s: StatementModel,
    from_loop: bool,
    facts: Seq<(QuestionModel, ExprModel)>,
    fuel: nat,
) -> Result<Ran, RunnerErrorModel>
    decreases fuel, s, 1int,
{
    match s {
        StatementModel::Conditional { condition: test, body, .. } => match condition(
            r.locals,
            test,
            facts,
        ) {
            Err(e) => Err(e),
            Ok((written, true)) => after_writing(written, ran(r, body, from_loop, facts, fuel)),
            Ok((written, false)) => after_writing(written, otherwise(r, s, from_loop, facts, fuel)),
        },
        _ => Err(RunnerErrorModel::Unsupported),
    }
}

/// What the branches of a conditional after the first do: the first `else if` whose
/// condition is true runs; where none is, the `else` body runs, and a `break` or `continue`
/// in it does not reach the loop.
pub open spec fn otherwise(
    r: RunnerModel,
    s: StatementModel,
    from_loop: bool,
    facts: Seq<(QuestionModel, ExprModel)>,
    fuel: nat,
) -> Result<Ran, RunnerErrorModel>
    decreases fuel, s, 0int,
{
    match s {
        StatementModel::Conditional { else_if_conditions, else_body, .. } => match branched(
            r,
            else_if_conditions,
            0,
            from_loop,
            facts,
            fuel,
        ) {
            Err(e) => Err(e),
            Ok((result, true)) => Ok(result),
            Ok((result, false)) => match else_body {
                None => Ok(result),
                Some(b) => after_writing(result.written, quiet(ran(r, b, from_loop, facts, fuel))),
            },
        },
        _ => Err(RunnerErrorModel::Unsupported),
    }
}

/// `r`, which a branch gave, as what the branches give: one of them ran.
pub open spec fn found(r: Result<Ran, RunnerErrorModel>) -> Result<(Ran, bool), RunnerErrorModel> {
    match r {
        Ok(ran) => Ok((ran, true)),
        Err(e) => Err(e),
    }
}

/// `r` with `before` written before what `r` wrote.
pub open spec fn after_writing_branch(before: Seq<char>, r: Result<(Ran, bool), RunnerErrorModel>) -> Result<
    (Ran, bool),
    RunnerErrorModel,
> {
    match r {
        Ok((ran, found)) => Ok((Ran { written: before + ran.written, ..ran }, found)),
        Err(e) => Err(e),
    }
}

/// What the `else if` branches from the `i`th on do, and whether one of them ran: the
/// first whose condition is true runs.
pub open spec fn branched(
    r: RunnerModel,
    branches: Seq<(ExprModel, Seq<StatementModel>)>,
    i: int,
    from_loop: bool,
    facts: Seq<(QuestionModel, ExprModel)>,
    fuel: nat,
) -> Result<(Ran, bool), RunnerErrorModel>
    decreases fuel, branches, branches.len() - i,
{
    if i < 0 || i >= branches.len() {
        Ok((Ran { runner: r, written: Seq::empty(), signal: None, fuel }, false))
    } else {
        match condition(r.locals, branches[i].0, facts) {
            Err(e) => Err(e),
            Ok((written, true)) => after_writing_branch(
                written,
                found(ran(r, branches[i].1, from_loop, facts, fuel)),
            ),
            Ok((written, false)) => after_writing_branch(
                written,
                branched(r, branches, i + 1, from_loop, facts, fuel),
            ),
        }
    }
}

/// What a turn of a loop gives for the loop: after a `break` the loop is over; else it
/// goes on with the turns that are left, which must be fewer than before the turn.
pub open spec fn next_turn(
    turn: Ran,
    s: StatementModel,
    facts: Seq<(QuestionModel, ExprModel)>,
    fuel: nat,
) -> Result<Ran, RunnerErrorModel>
    decreases fuel, s, 0int,
{
    if turn.signal == Some(0u8) {
        Ok(Ran { signal: None, ..turn })
    } else if turn.fuel >= fuel {
        Err(RunnerErrorModel::OutOfSteps)
    } else {
        after_writing(turn.written, looped(turn.runner, s, facts, turn.fuel))
    }
}

/// What a loop does: as long as its condition is true, it takes a turn of those that are
/// allowed and runs its body.
pub open spec fn looped(
    r: RunnerModel,
    s: StatementModel,
    facts: Seq<(QuestionModel, ExprModel)>,
    fuel: nat,
) -> Result<Ran, RunnerErrorModel>
    decreases fuel, s, 1int,
{
    match s {
        StatementModel::WhileLoop { condition: test, body } => match condition(r.locals, test, facts) {
            Err(e) => Err(e),
            Ok((written, false)) => Ok(Ran { runner: r, written, signal: None, fuel }),
            Ok((written, true)) => if fuel == 0 {
                Err(RunnerErrorModel::OutOfSteps)
            } else {
                match ran(r, body, true, facts, (fuel - 1) as nat) {
                    Err(e) => Err(e),
                    Ok(turn) => after_writing(written, next_turn(turn, s, facts, fuel)),
                }
            },
        },
        _ => Err(RunnerErrorModel::Unsupported),
    }
}

/// What the first `n` statements of a block do. After a `break` or a `continue` the rest
/// of the block is left out.
pub open spec fn ran_first(
    r: RunnerModel,
    statements: Seq<StatementModel>,
    n: int,
    from_loop: bool,
    facts: Seq<(QuestionModel, ExprModel)>,
    fuel: nat,
) -> Result<Ran, RunnerErrorModel>
    decreases fuel, statements, n,
{
    if n <= 0 || n > statements.len() {
        Ok(Ran { runner: r, written: Seq::empty(), signal: None, fuel })
    } else {
        match ran_first(r, statements, n - 1, from_loop, facts, fuel) {
            Err(e) => Err(e),
            Ok(before) => if before.signal is Some {
                Ok(before)
            } else if before.fuel > fuel {
                Err(RunnerErrorModel::OutOfSteps)
            } else {
                after_writing(
                    before.written,
                    executed(before.runner, statements[n - 1], from_loop, facts, before.fuel),
                )
            },
        }
    }
}

/// What a block does: it counts the variables that its statements make, and forgets them
/// at its end. A block that a `break` or a `continue` leaves keeps them.
pub open spec fn ran(
    r: RunnerModel,
    statements: Seq<StatementModel>,
    from_loop: bool,
    facts: Seq<(QuestionModel, ExprModel)>,
    fuel: nat,
) -> Result<Ran, RunnerErrorModel>
    decreases fuel, statements, statements.len() + 1,
{
    let entered = RunnerModel { scope: r.scope.push(0usize), ..r };
    match ran_first(entered, statements, statements.len() as int, from_loop, facts, fuel) {
        Err(e) => Err(e),
        Ok(done) => if done.signal is Some {
            Ok(done)
        } else {
            match left(done.runner) {
                Err(e) => Err(e),
                Ok(runner) => Ok(Ran { runner, ..done }),
            }
        },
    }
}

/// The evaluator: the variables by name, the names of the variables in the order in which
/// they were made, and for each block under way the number of variables that it has made.
pub struct NodeRunner {
    pub locals: StringHashMap<EvalValue>,
    pub locals_tracker: Vec<String>,
    pub locals_scope: Vec<usize>,
}

/// The variables of `locals` as mathematical values.
pub open spec fn locals_model(locals: Map<Seq<char>, EvalValue>) -> Map<Seq<char>, ExprModel> {
    Map::new(|k: Seq<char>| locals.contains_key(k), |k: Seq<char>| locals[k]@)
}

impl View for NodeRunner {
    type V = RunnerModel;

    open spec fn view(&self) -> RunnerModel {
        RunnerModel {
            locals: locals_model(self.locals@),
            tracker: names_model(self.locals_tracker@),
            scope: self.locals_scope@,
        }
    }
}

/// The values of `values` as mathematical values.
pub open spec fn leaves_model(values: Seq<EvalValue>) -> Seq<ExprModel> {
    Seq::new(values.len(), |i: int| values[i]@)
}

fn kind_of_literal(v: &EvalValue) -> (r: Option<i32>)
    ensures
        match literal_kind(v@) {
            Some(k) => r == Some(k as i32) && 1 <= k <= 4,
            None => r is None,
        },
{
    match v {
        EvalValue::IntegerLiteral { .. } => Some(1),
        EvalValue::Stringliteral { .. } => Some(2),
        EvalValue::FloatLiteral { .. } => Some(3),
        EvalValue::BooleanLiteral { .. } => Some(4),
        _ => None,
    }
}

fn number_of(v: &EvalValue) -> (r: Option<i32>)
    ensures
        r == int_of(v@),
{
    match v {
        EvalValue::IntegerLiteral { val } => match parse_int(val.as_str()) {
            Some(i) => if -2147483648 <= i && i <= 2147483647 {
                Some(i as i32)
            } else {
                None
            },
            None => None,
        },
        _ => None,
    }
}

fn integer(i: i32) -> (r: EvalValue)
    ensures
        r@ == int_literal(i as int),
{
    EvalValue::IntegerLiteral { val: decimal_text(i as i64) }
}

fn boolean(b: bool) -> (r: Result<EvalValue, RunnerError>)
    ensures
        r matches Ok(x) && x@ == ExprModel::Boolean(b),
{
    Ok(EvalValue::BooleanLiteral { val: b })
}

fn wrapped(r: Option<i32>) -> (out: Result<EvalValue, RunnerError>)
    ensures
        match r {
            Some(i) => out matches Ok(x) && x@ == int_literal(i as int),
            None => out matches Err(e) && e@ == RunnerErrorModel::Arithmetic(ArithmeticError::Overflow),
        },
{
    match r {
        Some(i) => Ok(integer(i)),
        None => Err(RunnerError::Arithmetic(ArithmeticError::Overflow)),
    }
}

fn compute_integers(op: BinaryOp, a: i32, b: i32) -> (r: Result<EvalValue, RunnerError>)
    ensures
        match on_integers(op, a as int, b as int) {
            Ok(v) => r matches Ok(x) && x@ == v,
            Err(e) => r matches Err(x) && x@ == e,
        },
{
    match op {
        BinaryOp::Add => wrapped(a.checked_add(b)),
        BinaryOp::Sub => wrapped(a.checked_sub(b)),
        BinaryOp::Mul => wrapped(a.checked_mul(b)),
        BinaryOp::Eq => boolean(a == b),
        BinaryOp::Neq => boolean(a != b),
        BinaryOp::GtEq => boolean(a >= b),
        BinaryOp::LtEq => boolean(a <= b),
        BinaryOp::Gt => boolean(a > b),
        BinaryOp::Lt => boolean(a < b),
        BinaryOp::Div => Err(RunnerError::Type),
    }
}

fn compute_strings(op: BinaryOp, a: &str, b: &str) -> (r: Result<EvalValue, RunnerError>)
    ensures
        match on_strings(op, a@, b@) {
            Ok(v) => r matches Ok(x) && x@ == v,
            Err(e) => r matches Err(x) && x@ == e,
        },
{
    match op {
        BinaryOp::Add => {
            let mut joined = a.to_string();
            joined.append(b);
            Ok(EvalValue::Stringliteral { val: joined })
        },
        BinaryOp::Eq => boolean(text_eq(a, b)),
        BinaryOp::Neq => boolean(!text_eq(a, b)),
        _ => Err(RunnerError::Type),
    }
}

fn is_number(v: &EvalValue) -> (r: bool)
    ensures
        r == (v@ is Integer || v@ is Float),
{
    match v {
        EvalValue::IntegerLiteral { .. } => true,
        EvalValue::FloatLiteral { .. } => true,
        _ => false,
    }
}

/// Whether `a`, which is a number, and `b` are the same literal.
fn same_number(a: &EvalValue, b: &EvalValue) -> (r: bool)
    requires
        a@ is Integer || a@ is Float,
    ensures
        r == (a@ == b@),
{
    match (a, b) {
        (EvalValue::IntegerLiteral { val: x }, EvalValue::IntegerLiteral { val: y }) => text_eq(
            x.as_str(),
            y.as_str(),
        ),
        (EvalValue::FloatLiteral { val: x }, EvalValue::FloatLiteral { val: y }) => text_eq(
            x.as_str(),
            y.as_str(),
        ),
        _ => false,
    }
}

fn find_answer(facts: &Vec<FloatFact>, op: BinaryOp, lhs: &EvalValue, rhs: &EvalValue) -> (r: Option<
    EvalValue,
>)
    requires
        lhs@ is Integer || lhs@ is Float,
        rhs@ is Integer || rhs@ is Float,
    ensures
        match answer_of(facts_model(facts@), QuestionModel { op, lhs: lhs@, rhs: rhs@ }, 0) {
            Some(v) => r matches Some(x) && x@ == v,
            None => r is None,
        },
{
    let ghost question = QuestionModel { op, lhs: lhs@, rhs: rhs@ };
    let mut i: usize = 0;
    while i < facts.len()
        invariant
            i <= facts.len(),
            lhs@ is Integer || lhs@ is Float,
            rhs@ is Integer || rhs@ is Float,
            question == (QuestionModel { op, lhs: lhs@, rhs: rhs@ }),
            answer_of(facts_model(facts@), question, 0) == answer_of(facts_model(facts@), question, i as int),
        decreases facts.len() - i,
    {
        let fact = &facts[i];
        if fact.question.op == op && same_number(lhs, &fact.question.lhs) && same_number(
            rhs,
            &fact.question.rhs,
        ) {
            return Some(copy_leaf(&fact.answer));
        }
        i += 1;
    }
    None
}

fn ask(facts: &Vec<FloatFact>, op: BinaryOp, lhs: &EvalValue, rhs: &EvalValue) -> (r: Result<
    EvalValue,
    RunnerError,
>)
    ensures
        match on_floats(op, lhs@, rhs@, facts_model(facts@)) {
            Ok(v) => r matches Ok(x) && x@ == v,
            Err(e) => r matches Err(x) && x@ == e,
        },
{
    if !is_number(lhs) || !is_number(rhs) {
        return Err(RunnerError::Type);
    }
    match lhs {
        EvalValue::IntegerLiteral { .. } => {
            if number_of(lhs).is_none() {
                return Err(RunnerError::Type);
            }
        },
        _ => {},
    }
    match rhs {
        EvalValue::IntegerLiteral { .. } => {
            if number_of(rhs).is_none() {
                return Err(RunnerError::Type);
            }
        },
        _ => {},
    }
    match find_answer(facts, op, lhs, rhs) {
        Some(answer) => Ok(answer),
        None => Err(RunnerError::Float(FloatQuestion { op, lhs: copy_leaf(lhs), rhs: copy_leaf(rhs) })),
    }
}

fn combine(op: BinaryOp, a: i32, b: i32, lhs: &EvalValue, rhs: &EvalValue, facts: &Vec<FloatFact>) -> (r:
    Result<EvalValue, RunnerError>)
    ensures
        match combined(op, a as int, b as int, lhs@, rhs@, facts_model(facts@)) {
            Ok(v) => r matches Ok(x) && x@ == v,
            Err(e) => r matches Err(x) && x@ == e,
        },
{
    if a == 1 && b == 1 {
        if op == BinaryOp::Div {
            ask(facts, op, lhs, rhs)
        } else {
            match (number_of(lhs), number_of(rhs)) {
                (Some(x), Some(y)) => compute_integers(op, x, y),
                _ => Err(RunnerError::Type),
            }
        }
    } else if a == 2 && b == 2 {
        match (lhs, rhs) {
            (EvalValue::Stringliteral { val: x }, EvalValue::Stringliteral { val: y }) => compute_strings(
                op,
                x.as_str(),
                y.as_str(),
            ),
            _ => Err(RunnerError::Type),
        }
    } else if (a == 3 && b == 3) || (a == 1 && b == 3) || (a == 3 && b == 1) {
        ask(facts, op, lhs, rhs)
    } else {
        Err(RunnerError::Type)
    }
}

fn filler_of(v: &EvalValue) -> (r: Option<Vec<char>>)
    ensures
        match filler(v@) {
            Some(t) => r matches Some(x) && x@ == t,
            None => r is None,
        },
{
    match v {
        EvalValue::IntegerLiteral { val } => Some(chars_of(val.as_str())),
        EvalValue::Stringliteral { val } => Some(chars_of(val.as_str())),
        EvalValue::FloatLiteral { val } => Some(chars_of(val.as_str())),
        EvalValue::BooleanLiteral { val } => if *val {
            Some(chars_of("true"))
        } else {
            Some(chars_of("false"))
        },
        _ => None,
    }
}

fn append_spaced(out: &mut String, values: &Vec<EvalValue>)
    ensures
        final(out)@ == old(out)@ + spaced(leaves_model(values@), values.len() as int),
{
    let ghost models = leaves_model(values@);
    let mut i: usize = 0;
    assert(out@ =~= old(out)@ + spaced(models, 0));
    while i < values.len()
        invariant
            i <= values.len(),
            models == leaves_model(values@),
            out@ == old(out)@ + spaced(models, i as int),
        decreases values.len() - i,
    {
        if i > 0 {
            out.push(' ');
        }
        let text = values[i].to_string();
        out.append(text.as_str());
        i += 1;
        assert(out@ =~= old(out)@ + spaced(models, i as int));
    }
}

/// Where evaluating the first `n` expressions fails, evaluating more of them fails in the
/// same way.
pub proof fn lemma_eval_all_fails(
    locals: Map<Seq<char>, ExprModel>,
    es: Seq<ExprModel>,
    n: int,
    m: int,
    facts: Seq<(QuestionModel, ExprModel)>,
)
    requires
        0 < n <= m <= es.len(),
        eval_all(locals, es, n, facts) is Err,
    ensures
        eval_all(locals, es, m, facts) == eval_all(locals, es, n, facts),
    decreases m - n,
{
    if n < m {
        lemma_eval_all_fails(locals, es, n, m - 1, facts);
    }
}

/// Where the first `n` arguments of `format` fail, more of them fail in the same way.
pub proof fn lemma_format_args_fail(
    locals: Map<Seq<char>, ExprModel>,
    args: Seq<ExprModel>,
    n: int,
    m: int,
    facts: Seq<(QuestionModel, ExprModel)>,
)
    requires
        0 < n <= m <= args.len(),
        format_args(locals, args, n, facts) is Err,
    ensures
        format_args(locals, args, m, facts) == format_args(locals, args, n, facts),
    decreases m - n,
{
    if n < m {
        lemma_format_args_fail(locals, args, n, m - 1, facts);
    }
}

impl NodeRunner {
    /// An evaluator without variables.
    pub fn new() -> (r: NodeRunner)
        ensures
            r@ == (RunnerModel { locals: Map::empty(), tracker: Seq::empty(), scope: Seq::empty() }),
    {
        let r = Self {
            locals: StringHashMap::new(),
            locals_tracker: Vec::new(),
            locals_scope: Vec::new(),
        };
        assert(r@.locals =~= Map::empty());
        assert(r@.tracker =~= Seq::empty());
        r
    }

    /// The kind of `val`: 1 for an integer, 2 for a string, 3 for a float, 4 for a boolean,
    /// and for a name the kind of what its variable holds.
    pub fn get_value_type(&self, val: &EvalValue) -> (r: Result<i32, RunnerError>)
        ensures
            match kind_of(self@.locals, val@) {
                Ok(k) => r == Ok::<i32, RunnerError>(k as i32) && 1 <= k <= 4,
                Err(e) => r matches Err(x) && x@ == e,
            },
    {
        match val {
            EvalValue::Reference { val: name } => match self.locals.get(name.as_str()) {
                None => Err(RunnerError::Name),
                Some(held) => match kind_of_literal(held) {
                    Some(k) => Ok(k),
                    None => Err(RunnerError::Type),
                },
            },
            _ => match kind_of_literal(val) {
                Some(k) => Ok(k),
                None => Err(RunnerError::Type),
            },
        }
    }

    /// The value of `expr`; what evaluating it writes is appended to `out`.
    pub fn evaluate_expr(&self, expr: &ExprAst, facts: &Vec<FloatFact>, out: &mut String) -> (r: Result<
        EvalValue,
        RunnerError,
    >)
        ensures
            match eval(self@.locals, expr@, facts_model(facts@)) {
                Ok(v) => r matches Ok(x) && x@ == v.value && final(out)@ == old(out)@ + v.written,
                Err(e) => r matches Err(x) && x@ == e,
            },
        decreases expr, 1int,
    {
        proof {
            reveal_with_fuel(expr_model, 2);
            reveal_with_fuel(leaf_model, 2);
        }
        let ghost fm = facts_model(facts@);
        let ghost start = out@;
        let (op, lhs, rhs) = match expr {
            ExprAst::Value { val } => match val {
                EvalValue::Reference { val: name } => {
                    return match self.locals.get(name.as_str()) {
                        Some(held) => {
                            assert(start + Seq::<char>::empty() =~= start);
                            Ok(copy_leaf(held))
                        },
                        None => Err(RunnerError::Name),
                    };
                },
                _ => {
                    assert(start + Seq::<char>::empty() =~= start);
                    return Ok(copy_leaf(val));
                },
            },
            ExprAst::FunctionCall { name, args } => {
                return match self.handle_function_call(name.as_str(), args, facts, out) {
                    Err(e) => Err(e),
                    Ok(Some(value)) => Ok(value),
                    Ok(None) => Ok(EvalValue::Stringliteral { val: "NONE".to_string() }),
                };
            },
            ExprAst::Addition { lhs, rhs } => (BinaryOp::Add, lhs, rhs),
            ExprAst::Subtraction { lhs, rhs } => (BinaryOp::Sub, lhs, rhs),
            ExprAst::Division { lhs, rhs } => (BinaryOp::Div, lhs, rhs),
            ExprAst::Multiplication { lhs, rhs } => (BinaryOp::Mul, lhs, rhs),
            ExprAst::Eq { lhs, rhs } => (BinaryOp::Eq, lhs, rhs),
            ExprAst::Neq { lhs, rhs } => (BinaryOp::Neq, lhs, rhs),
            ExprAst::GtEq { lhs, rhs } => (BinaryOp::GtEq, lhs, rhs),
            ExprAst::LtEq { lhs, rhs } => (BinaryOp::LtEq, lhs, rhs),
            ExprAst::Gt { lhs, rhs } => (BinaryOp::Gt, lhs, rhs),
            ExprAst::Lt { lhs, rhs } => (BinaryOp::Lt, lhs, rhs),
        };
        let left = match self.evaluate_expr(lhs, facts, out) {
            Ok(v) => v,
            Err(e) => {
                return Err(e);
            },
        };
        let right = match self.evaluate_expr(rhs, facts, out) {
            Ok(v) => v,
            Err(e) => {
                return Err(e);
            },
        };
        let a = match self.get_value_type(&left) {
            Ok(k) => k,
            Err(e) => {
                return Err(e);
            },
        };
        let b = match self.get_value_type(&right) {
            Ok(k) => k,
            Err(e) => {
                return Err(e);
            },
        };
        proof {
            let l = eval(self@.locals, lhs@, fm)->Ok_0;
            let r2 = eval(self@.locals, rhs@, fm)->Ok_0;
            assert(out@ =~= start + (l.written + r2.written));
        }
        combine(op, a, b, &left, &right, facts)
    }

    /// The values of `es`, evaluated from the left; what that writes is appended to `out`.
    pub fn evaluate_all(&self, es: &Vec<ExprAst>, facts: &Vec<FloatFact>, out: &mut String) -> (r: Result<
        Vec<EvalValue>,
        RunnerError,
    >)
        ensures
            match eval_all(self@.locals, exprs_model(es@), es.len() as int, facts_model(facts@)) {
                Ok(v) => r matches Ok(x) && leaves_model(x@) == v.values && final(out)@ == old(out)@
                    + v.written,
                Err(e) => r matches Err(x) && x@ == e,
            },
        decreases es, 0int,
    {
        let ghost fm = facts_model(facts@);
        let ghost models = exprs_model(es@);
        let ghost start = out@;
        let mut values: Vec<EvalValue> = Vec::new();
        let mut i: usize = 0;
        assert(leaves_model(values@) =~= Seq::empty());
        assert(start + Seq::<char>::empty() =~= start);
        while i < es.len()
            invariant
                i <= es.len(),
                fm == facts_model(facts@),
                models == exprs_model(es@),
                eval_all(self@.locals, models, i as int, fm) matches Ok(v) && leaves_model(values@)
                    == v.values && out@ == start + v.written,
            decreases es.len() - i,
        {
            let ghost before = eval_all(self@.locals, models, i as int, fm)->Ok_0;
            match self.evaluate_expr(&es[i], facts, out) {
                Err(e) => {
                    proof {
                        lemma_eval_all_fails(self@.locals, models, i as int + 1, es.len() as int, fm);
                    }
                    return Err(e);
                },
                Ok(value) => {
                    let ghost held = leaves_model(values@);
                    values.push(value);
                    proof {
                        let last = eval(self@.locals, models[i as int], fm)->Ok_0;
                        assert(leaves_model(values@) =~= held.push(value@));
                        assert(out@ =~= start + (before.written + last.written));
                    }
                },
            }
            i += 1;
        }
        Ok(values)
    }

    fn format(&self, args: &Vec<ExprAst>, facts: &Vec<FloatFact>, out: &mut String) -> (r: Result<
        EvalValue,
        RunnerError,
    >)
        ensures
            match format_call(self@.locals, exprs_model(args@), facts_model(facts@)) {
                Ok(v) => r matches Ok(x) && x@ == v.value && final(out)@ == old(out)@ + v.written,
                Err(e) => r matches Err(x) && x@ == e,
            },
        decreases args, 0int,
    {
        let ghost fm = facts_model(facts@);
        let ghost models = exprs_model(args@);
        let ghost start = out@;
        if args.len() < 1 {
            return Err(RunnerError::Type);
        }
        let first = match self.evaluate_expr(&args[0], facts, out) {
            Ok(v) => v,
            Err(e) => {
                proof {
                    lemma_format_args_fail(self@.locals, models, 1, args.len() as int, fm);
                }
                return Err(e);
            },
        };
        let template = match first {
            EvalValue::Stringliteral { val } => chars_of(val.as_str()),
            _ => {
                proof {
                    lemma_format_args_fail(self@.locals, models, 1, args.len() as int, fm);
                }
                return Err(RunnerError::Type);
            },
        };
        let mut fillers: Vec<Vec<char>> = Vec::new();
        assert(texts_model(fillers@) =~= Seq::empty());
        let mut i: usize = 1;
        while i < args.len()
            invariant
                1 <= i <= args.len(),
                fm == facts_model(facts@),
                models == exprs_model(args@),
                format_args(self@.locals, models, i as int, fm) matches Ok(g) && g.template
                    == template@ && g.fillers == texts_model(fillers@) && out@ == start + g.written,
            decreases args.len() - i,
        {
            let ghost before = format_args(self@.locals, models, i as int, fm)->Ok_0;
            let value = match self.evaluate_expr(&args[i], facts, out) {
                Ok(v) => v,
                Err(e) => {
                    proof {
                        lemma_format_args_fail(self@.locals, models, i as int + 1, args.len() as int, fm);
                    }
                    return Err(e);
                },
            };
            match filler_of(&value) {
                Some(with) => {
                    let ghost held = texts_model(fillers@);
                    fillers.push(with);
                    assert(texts_model(fillers@) =~= held.push(with@));
                },
                None => {
                    proof {
                        lemma_format_args_fail(self@.locals, models, i as int + 1, args.len() as int, fm);
                    }
                    return Err(RunnerError::Type);
                },
            }
            proof {
                let last = eval(self@.locals, models[i as int], fm)->Ok_0;
                assert(out@ =~= start + (before.written + last.written));
            }
            i += 1;
        }
        let text = splice(&template, &fillers);
        Ok(EvalValue::Stringliteral { val: string_of(&text) })
    }

    /// Calls the built-in `name`: `print` and `println` append to `out` and give nothing,
    /// `format` gives a string.
    pub fn call_builtin_function(
        &self,
        name: &str,
        args: &Vec<ExprAst>,
        facts: &Vec<FloatFact>,
        out: &mut String,
    ) -> (r: Result<Option<EvalValue>, RunnerError>)
        ensures
            match eval_call(self@.locals, name@, exprs_model(args@), facts_model(facts@)) {
                Ok(v) => final(out)@ == old(out)@ + v.written && match r {
                    Ok(Some(x)) => x@ == v.value && name@ == "format"@,
                    Ok(None) => v.value == none_value() && name@ != "format"@,
                    Err(_) => false,
                },
                Err(e) => r matches Err(x) && x@ == e,
            },
        decreases args, 1int,
    {
        let ghost start = out@;
        proof {
            reveal_strlit("print");
            reveal_strlit("println");
            reveal_strlit("format");
            assert("print"@.len() == 5);
            assert("println"@.len() == 7);
            assert("format"@.len() == 6);
        }
        if text_eq(name, "print") || text_eq(name, "println") {
            match self.evaluate_all(args, facts, out) {
                Err(e) => Err(e),
                Ok(values) => {
                    let ghost written = out@;
                    append_spaced(out, &values);
                    if text_eq(name, "println") {
                        out.push('\n');
                    }
                    proof {
                        let all = eval_all(
                            self@.locals,
                            exprs_model(args@),
                            args.len() as int,
                            facts_model(facts@),
                        )->Ok_0;
                        let line = spaced(all.values, all.values.len() as int);
                        if name@ == "println"@ {
                            assert(out@ =~= start + (all.written + line + seq!['\n']));
                        } else {
                            assert(out@ =~= start + (all.written + line + Seq::<char>::empty()));
                        }
                    }
                    Ok(None)
                },
            }
        } else if text_eq(name, "format") {
            match self.format(args, facts, out) {
                Ok(v) => Ok(Some(v)),
                Err(e) => Err(e),
            }
        } else {
            Err(RunnerError::Unsupported)
        }
    }

    /// Calls the function `name`: only the built-ins `print`, `println` and `format` can be
    /// called.
    pub fn handle_function_call(
        &self,
        name: &str,
        args: &Vec<ExprAst>,
        facts: &Vec<FloatFact>,
        out: &mut String,
    ) -> (r: Result<Option<EvalValue>, RunnerError>)
        ensures
            match eval_call(self@.locals, name@, exprs_model(args@), facts_model(facts@)) {
                Ok(v) => final(out)@ == old(out)@ + v.written && match r {
                    Ok(Some(x)) => x@ == v.value && name@ == "format"@,
                    Ok(None) => v.value == none_value() && name@ != "format"@,
                    Err(_) => false,
                },
                Err(e) => r matches Err(x) && x@ == e,
            },
        decreases args, 2int,
    {
        if text_eq(name, "print") || text_eq(name, "println") || text_eq(name, "format") {
            self.call_builtin_function(name, args, facts, out)
        } else {
            Err(RunnerError::Unsupported)
        }
    }
}




/// Whether a call that returned `r`, left the evaluator as `after`, took the output from
/// `before_out` to `after_out` and left `fuel` turns did what `expected` says. After a
/// failure nothing else is stated.
pub open spec fn done(
    expected: Result<Ran, RunnerErrorModel>,
    r: Result<Option<u8>, RunnerError>,
    after: RunnerModel,
    before_out: Seq<char>,
    after_out: Seq<char>,
    fuel: usize,
) -> bool {
    match expected {
        Ok(ran) => {
            &&& r matches Ok(signal) && signal == ran.signal
            &&& after == ran.runner
            &&& after_out == before_out + ran.written
            &&& fuel == ran.fuel
        },
        Err(e) => r matches Err(x) && x@ == e,
    }
}

/// What is written first and what is written after it make up what is written.
pub proof fn lemma_done_after_writing(
    written: Seq<char>,
    expected: Result<Ran, RunnerErrorModel>,
    r: Result<Option<u8>, RunnerError>,
    after: RunnerModel,
    start: Seq<char>,
    out: Seq<char>,
    fuel: usize,
)
    requires
        done(expected, r, after, start + written, out, fuel),
    ensures
        done(after_writing(written, expected), r, after, start, out, fuel),
{
    match expected {
        Ok(ran) => {
            assert((start + written) + ran.written =~= start + (written + ran.written));
        },
        Err(_) => {},
    }
}

/// Writing before what was written before is writing both before.
pub proof fn lemma_writing_twice(a: Seq<char>, b: Seq<char>, r: Result<Ran, RunnerErrorModel>)
    ensures
        after_writing(a, after_writing(b, r)) == after_writing(a + b, r),
        after_writing(Seq::empty(), r) == r,
{
    match r {
        Ok(ran) => {
            assert(a + (b + ran.written) =~= (a + b) + ran.written);
            assert(Seq::<char>::empty() + ran.written =~= ran.written);
        },
        Err(_) => {},
    }
}

/// Writing before what was written before is writing both before.
pub proof fn lemma_writing_twice_branch(a: Seq<char>, b: Seq<char>, r: Result<(Ran, bool), RunnerErrorModel>)
    ensures
        after_writing_branch(a, after_writing_branch(b, r)) == after_writing_branch(a + b, r),
        after_writing_branch(Seq::empty(), r) == r,
{
    match r {
        Ok((ran, found)) => {
            assert(a + (b + ran.written) =~= (a + b) + ran.written);
            assert(Seq::<char>::empty() + ran.written =~= ran.written);
        },
        Err(_) => {},
    }
}

/// Where no branch runs, the evaluator stays as it was and no turn is taken.
pub proof fn lemma_branched_none(
    r: RunnerModel,
    branches: Seq<(ExprModel, Seq<StatementModel>)>,
    i: int,
    from_loop: bool,
    facts: Seq<(QuestionModel, ExprModel)>,
    fuel: nat,
)
    requires
        0 <= i <= branches.len(),
    ensures
        branched(r, branches, i, from_loop, facts, fuel) matches Ok((result, false)) ==> result.runner
            == r && result.signal is None && result.fuel == fuel,
    decreases branches.len() - i,
{
    if i < branches.len() {
        lemma_branched_none(r, branches, i + 1, from_loop, facts, fuel);
    }
}

/// Once the first `n` statements of a block have failed or met a `break` or a `continue`,
/// the rest changes nothing.
pub proof fn lemma_ran_first_stops(
    r: RunnerModel,
    statements: Seq<StatementModel>,
    n: int,
    m: int,
    from_loop: bool,
    facts: Seq<(QuestionModel, ExprModel)>,
    fuel: nat,
)
    requires
        0 < n <= m <= statements.len(),
        match ran_first(r, statements, n, from_loop, facts, fuel) {
            Ok(ran) => ran.signal is Some,
            Err(_) => true,
        },
    ensures
        ran_first(r, statements, m, from_loop, facts, fuel) == ran_first(
            r,
            statements,
            n,
            from_loop,
            facts,
            fuel,
        ),
    decreases m - n,
{
    if n < m {
        lemma_ran_first_stops(r, statements, n, m - 1, from_loop, facts, fuel);
    }
}

/// The next statement of a block runs after those before it, where none of them has
/// failed or met a `break` or a `continue`.
pub proof fn lemma_ran_first_next(
    r: RunnerModel,
    statements: Seq<StatementModel>,
    i: int,
    from_loop: bool,
    facts: Seq<(QuestionModel, ExprModel)>,
    fuel: nat,
    before: Ran,
)
    requires
        0 <= i < statements.len(),
        ran_first(r, statements, i, from_loop, facts, fuel) == Ok::<Ran, RunnerErrorModel>(before),
        before.signal is None,
        before.fuel <= fuel,
    ensures
        ran_first(r, statements, i + 1, from_loop, facts, fuel) == after_writing(
            before.written,
            executed(before.runner, statements[i], from_loop, facts, before.fuel),
        ),
{
}

/// Before the first statement of a block nothing has happened.
pub proof fn lemma_ran_first_none(
    r: RunnerModel,
    statements: Seq<StatementModel>,
    from_loop: bool,
    facts: Seq<(QuestionModel, ExprModel)>,
    fuel: nat,
)
    ensures
        ran_first(r, statements, 0, from_loop, facts, fuel) == Ok::<Ran, RunnerErrorModel>(
            Ran { runner: r, written: Seq::empty(), signal: None, fuel },
        ),
{
}

/// What the branches from the `i`th on do, by what the `i`th does.
pub proof fn lemma_branched_at(
    r: RunnerModel,
    branches: Seq<(ExprModel, Seq<StatementModel>)>,
    i: int,
    from_loop: bool,
    facts: Seq<(QuestionModel, ExprModel)>,
    fuel: nat,
)
    ensures
        0 <= i < branches.len() ==> branched(r, branches, i, from_loop, facts, fuel) == match condition(
            r.locals,
            branches[i].0,
            facts,
        ) {
            Err(e) => Err(e),
            Ok((written, true)) => after_writing_branch(
                written,
                found(ran(r, branches[i].1, from_loop, facts, fuel)),
            ),
            Ok((written, false)) => after_writing_branch(
                written,
                branched(r, branches, i + 1, from_loop, facts, fuel),
            ),
        },
        i >= branches.len() ==> branched(r, branches, i, from_loop, facts, fuel) == Ok::<
            (Ran, bool),
            RunnerErrorModel,
        >((Ran { runner: r, written: Seq::empty(), signal: None, fuel }, false)),
{
}

impl NodeRunner {
    fn truth(&self, test: &ExprAst, facts: &Vec<FloatFact>, out: &mut String) -> (r: Result<
        bool,
        RunnerError,
    >)
        ensures
            match condition(self@.locals, test@, facts_model(facts@)) {
                Ok((written, b)) => r == Ok::<bool, RunnerError>(b) && final(out)@ == old(out)@ + written,
                Err(e) => r matches Err(x) && x@ == e,
            },
    {
        match self.evaluate_expr(test, facts, out) {
            Err(e) => Err(e),
            Ok(EvalValue::BooleanLiteral { val }) => Ok(val),
            Ok(_) => Err(RunnerError::Type),
        }
    }

    fn forget(&mut self) -> (r: Result<(), RunnerError>)
        ensures
            match left(old(self)@) {
                Ok(runner) => r is Ok && final(self)@ == runner,
                Err(e) => r matches Err(x) && x@ == e,
            },
    {
        let ghost before = self@;
        let n = match self.locals_scope.pop() {
            Some(n) => n,
            None => {
                return Err(RunnerError::Type);
            },
        };
        if n > self.locals_tracker.len() {
            return Err(RunnerError::Type);
        }
        let mut k: usize = 0;
        assert(before.tracker.take(before.tracker.len() - 0) =~= before.tracker);
        while k < n
            invariant
                k <= n <= before.tracker.len(),
                before == old(self)@,
                self.locals_scope@ == before.scope.drop_last(),
                self@.locals == forgotten(before.locals, before.tracker, k as int),
                self@.tracker == before.tracker.take(before.tracker.len() - k),
                self.locals_tracker.len() == before.tracker.len() - k,
            decreases n - k,
        {
            let ghost held = self.locals@;
            let ghost names = self.locals_tracker@;
            let name = self.locals_tracker.pop().unwrap();
            self.locals.remove(name.as_str());
            k += 1;
            proof {
                assert(names_model(names).last() == name@);
                assert(name@ == before.tracker[before.tracker.len() - k]);
                assert(locals_model(held.remove(name@)) =~= locals_model(held).remove(name@));
                assert(self@.tracker =~= before.tracker.take(before.tracker.len() - k));
            }
        }
        Ok(())
    }

    fn assign(&mut self, name: &String, value: &ExprAst, facts: &Vec<FloatFact>, fuel: usize, out: &mut String) -> (r:
        Result<Option<u8>, RunnerError>)
        ensures
            done(
                assigned(old(self)@, name@, value@, facts_model(facts@), fuel as nat),
                r,
                final(self)@,
                old(out)@,
                final(out)@,
                fuel,
            ),
    {
        let ghost before = self@;
        let v = match self.evaluate_expr(value, facts, out) {
            Ok(v) => v,
            Err(e) => {
                return Err(e);
            },
        };
        let n = self.locals_scope.len();
        if n == 0 {
            return Err(RunnerError::Type);
        }
        let count = self.locals_scope[n - 1];
        if count == usize::MAX {
            return Err(RunnerError::Arithmetic(ArithmeticError::Overflow));
        }
        self.locals.insert(name.clone(), v);
        self.locals_tracker.push(name.clone());
        self.locals_scope.set(n - 1, count + 1);
        proof {
            assert(self@.locals =~= before.locals.insert(name@, v@));
            assert(self@.tracker =~= before.tracker.push(name@));
        }
        Ok(None)
    }

    fn reassign(&mut self, name: &String, value: &ExprAst, facts: &Vec<FloatFact>, fuel: usize, out: &mut String) -> (r:
        Result<Option<u8>, RunnerError>)
        ensures
            done(
                reassigned(old(self)@, name@, value@, facts_model(facts@), fuel as nat),
                r,
                final(self)@,
                old(out)@,
                final(out)@,
                fuel,
            ),
    {
        let ghost before = self@;
        if !self.locals.contains_key(name.as_str()) {
            return Err(RunnerError::Name);
        }
        let v = match self.evaluate_expr(value, facts, out) {
            Ok(v) => v,
            Err(e) => {
                return Err(e);
            },
        };
        self.locals.insert(name.clone(), v);
        proof {
            assert(self@.locals =~= before.locals.insert(name@, v@));
        }
        Ok(None)
    }

    fn call_statement(&self, name: &String, args: &Vec<ExprAst>, facts: &Vec<FloatFact>, fuel: usize, out: &mut String) -> (r:
        Result<Option<u8>, RunnerError>)
        ensures
            done(
                called(self@, name@, exprs_model(args@), facts_model(facts@), fuel as nat),
                r,
                self@,
                old(out)@,
                final(out)@,
                fuel,
            ),
    {
        match self.handle_function_call(name.as_str(), args, facts, out) {
            Ok(_) => Ok(None),
            Err(e) => Err(e),
        }
    }

    fn signal(&self, from_loop: bool, signal: u8, fuel: usize, out: &String) -> (r: Result<
        Option<u8>,
        RunnerError,
    >)
        ensures
            done(signalled(self@, from_loop, signal, fuel as nat), r, self@, out@, out@, fuel),
    {
        if from_loop {
            assert(out@ + Seq::<char>::empty() =~= out@);
            Ok(Some(signal))
        } else {
            Err(RunnerError::OutsideLoop)
        }
    }

    /// Executes `statement`; what it writes is appended to `out`, and each turn of a loop
    /// takes one off `fuel`. Returns 0 where a `break` is on its way to the loop around, 1
    /// for a `continue`.
    pub fn execute(
        &mut self,
        statement: &Statement,
        from_loop: bool,
        facts: &Vec<FloatFact>,
        fuel: &mut usize,
        out: &mut String,
    ) -> (r: Result<Option<u8>, RunnerError>)
        ensures
            done(
                executed(
                    old(self)@,
                    statement@,
                    from_loop,
                    facts_model(facts@),
                    *old(fuel) as nat,
                ),
                r,
                final(self)@,
                old(out)@,
                final(out)@,
                *final(fuel),
            ),
            r is Ok ==> *final(fuel) <= *old(fuel),
        decreases *old(fuel), statement, 2int,
    {
        match statement {
            Statement::VariableAssignment { name, value } => self.assign(name, value, facts, *fuel, out),
            Statement::VariableReassignment { name, value } => self.reassign(
                name,
                value,
                facts,
                *fuel,
                out,
            ),
            Statement::FunctionCall { name, args } => self.call_statement(name, args, facts, *fuel, out),
            Statement::Conditional { .. } => self.decide(statement, from_loop, facts, fuel, out),
            Statement::WhileLoop { .. } => self.loop_while(statement, facts, fuel, out),
            Statement::Break => self.signal(from_loop, 0, *fuel, out),
            Statement::Continue => self.signal(from_loop, 1, *fuel, out),
            _ => Err(RunnerError::Unsupported),
        }
    }

    fn decide(
        &mut self,
        statement: &Statement,
        from_loop: bool,
        facts: &Vec<FloatFact>,
        fuel: &mut usize,
        out: &mut String,
    ) -> (r: Result<Option<u8>, RunnerError>)
        ensures
            done(
                chosen(old(self)@, statement@, from_loop, facts_model(facts@), *old(fuel) as nat),
                r,
                final(self)@,
                old(out)@,
                final(out)@,
                *final(fuel),
            ),
            r is Ok ==> *final(fuel) <= *old(fuel),
        decreases *old(fuel), statement, 1int,
    {
        let ghost before = self@;
        let ghost start = out@;
        let ghost fm = facts_model(facts@);
        let ghost given = *fuel as nat;
        match statement {
            Statement::Conditional { condition: test, body, .. } => {
                let holds = match self.truth(test, facts, out) {
                    Ok(b) => b,
                    Err(e) => {
                        return Err(e);
                    },
                };
                let ghost written = condition(before.locals, test@, fm)->Ok_0.0;
                if holds {
                    let r = self.run(body, from_loop, facts, fuel, out);
                    proof {
                        lemma_done_after_writing(
                            written,
                            ran(before, block_model(body@), from_loop, fm, given),
                            r,
                            self@,
                            start,
                            out@,
                            *fuel,
                        );
                    }
                    r
                } else {
                    let r = self.otherwise(statement, from_loop, facts, fuel, out);
                    proof {
                        lemma_done_after_writing(
                            written,
                            otherwise(before, statement@, from_loop, fm, given),
                            r,
                            self@,
                            start,
                            out@,
                            *fuel,
                        );
                    }
                    r
                }
            },
            _ => Err(RunnerError::Unsupported),
        }
    }

    fn otherwise(
        &mut self,
        statement: &Statement,
        from_loop: bool,
        facts: &Vec<FloatFact>,
        fuel: &mut usize,
        out: &mut String,
    ) -> (r: Result<Option<u8>, RunnerError>)
        ensures
            done(
                otherwise(old(self)@, statement@, from_loop, facts_model(facts@), *old(fuel) as nat),
                r,
                final(self)@,
                old(out)@,
                final(out)@,
                *final(fuel),
            ),
            r is Ok ==> *final(fuel) <= *old(fuel),
        decreases *old(fuel), statement, 0int,
    {
        let ghost before = self@;
        let ghost start = out@;
        let ghost fm = facts_model(facts@);
        let ghost given = *fuel as nat;
        match statement {
            Statement::Conditional { else_if_conditions, else_body, .. } => {
                let (signal, found) = match self.branches(else_if_conditions, from_loop, facts, fuel, out) {
                    Ok(pair) => pair,
                    Err(e) => {
                        return Err(e);
                    },
                };
                let ghost result = branched(
                    before,
                    branches_model(else_if_conditions@),
                    0,
                    from_loop,
                    fm,
                    given,
                )->Ok_0.0;
                if found {
                    return Ok(signal);
                }
                proof {
                    lemma_branched_none(before, branches_model(else_if_conditions@), 0, from_loop, fm, given);
                }
                match else_body {
                    None => Ok(signal),
                    Some(b) => {
                        let r = match self.run(b, from_loop, facts, fuel, out) {
                            Ok(_) => Ok(None),
                            Err(e) => Err(e),
                        };
                        proof {
                            lemma_done_after_writing(
                                result.written,
                                quiet(ran(before, block_model(b@), from_loop, fm, given)),
                                r,
                                self@,
                                start,
                                out@,
                                *fuel,
                            );
                        }
                        r
                    },
                }
            },
            _ => Err(RunnerError::Unsupported),
        }
    }

    fn branches(
        &mut self,
        branches: &Vec<(ExprAst, Vec<Statement>)>,
        from_loop: bool,
        facts: &Vec<FloatFact>,
        fuel: &mut usize,
        out: &mut String,
    ) -> (r: Result<(Option<u8>, bool), RunnerError>)
        ensures
            match branched(
                old(self)@,
                branches_model(branches@),
                0,
                from_loop,
                facts_model(facts@),
                *old(fuel) as nat,
            ) {
                Ok((result, found)) => {
                    &&& r matches Ok(x) && x.0 == result.signal && x.1 == found
                    &&& final(self)@ == result.runner
                    &&& final(out)@ == old(out)@ + result.written
                    &&& *final(fuel) == result.fuel
                    &&& *final(fuel) <= *old(fuel)
                },
                Err(e) => r matches Err(x) && x@ == e,
            },
        decreases *old(fuel), branches, 0int,
    {
        let ghost before = self@;
        let ghost start = out@;
        let ghost fm = facts_model(facts@);
        let ghost bm = branches_model(branches@);
        let ghost given = *fuel as nat;
        let ghost mut written: Seq<char> = Seq::empty();
        let mut i: usize = 0;
        proof {
            assert(start + written =~= start);
            lemma_writing_twice_branch(written, written, branched(before, bm, 0, from_loop, fm, given));
        }
        while i < branches.len()
            invariant
                i <= branches.len(),
                fm == facts_model(facts@),
                bm == branches_model(branches@),
                before == old(self)@,
                start == old(out)@,
                given == *old(fuel) as nat,
                self@ == before,
                *fuel == *old(fuel),
                out@ == start + written,
                branched(before, bm, 0, from_loop, fm, given) == after_writing_branch(
                    written,
                    branched(before, bm, i as int, from_loop, fm, given),
                ),
            decreases branches.len() - i,
        {
            proof {
                lemma_branched_at(before, bm, i as int, from_loop, fm, given);
            }
            let holds = match self.truth(&branches[i].0, facts, out) {
                Ok(b) => b,
                Err(e) => {
                    return Err(e);
                },
            };
            let ghost more = condition(before.locals, bm[i as int].0, fm)->Ok_0.0;
            if holds {
                let r = self.run(&branches[i].1, from_loop, facts, fuel, out);
                proof {
                    let body = ran(before, bm[i as int].1, from_loop, fm, given);
                    lemma_writing_twice_branch(written, more, found(body));
                    match body {
                        Ok(result) => {
                            assert(out@ =~= start + ((written + more) + result.written));
                        },
                        Err(_) => {},
                    }
                }
                return match r {
                    Ok(signal) => Ok((signal, true)),
                    Err(e) => Err(e),
                };
            }
            proof {
                lemma_writing_twice_branch(
                    written,
                    more,
                    branched(before, bm, i as int + 1, from_loop, fm, given),
                );
                assert(out@ =~= start + (written + more));
                written = written + more;
            }
            i += 1;
        }
        proof {
            lemma_branched_at(before, bm, i as int, from_loop, fm, given);
            assert(written + Seq::<char>::empty() =~= written);
        }
        Ok((None, false))
    }

    /// One turn of a loop: returns whether the loop goes on after it.
    fn turn(&mut self, statement: &Statement, facts: &Vec<FloatFact>, fuel: &mut usize, out: &mut String) -> (r:
        Result<bool, RunnerError>)
        requires
            statement@ is WhileLoop,
        ensures
            match r {
                Err(x) => looped(old(self)@, statement@, facts_model(facts@), *old(fuel) as nat)
                    == Err::<Ran, RunnerErrorModel>(x@),
                Ok(false) => exists|written: Seq<char>|
                    final(out)@ == old(out)@ + written && #[trigger] looped(
                        old(self)@,
                        statement@,
                        facts_model(facts@),
                        *old(fuel) as nat,
                    ) == Ok::<Ran, RunnerErrorModel>(
                        Ran { runner: final(self)@, written, signal: None, fuel: *final(fuel) as nat },
                    ),
                Ok(true) => exists|written: Seq<char>|
                    final(out)@ == old(out)@ + written && looped(
                        old(self)@,
                        statement@,
                        facts_model(facts@),
                        *old(fuel) as nat,
                    ) == #[trigger] after_writing(
                        written,
                        looped(final(self)@, statement@, facts_model(facts@), *final(fuel) as nat),
                    ),
            },
            r is Ok ==> *final(fuel) <= *old(fuel),
            r == Ok::<bool, RunnerError>(true) ==> *final(fuel) < *old(fuel),
        decreases *old(fuel), statement, 0int,
    {
        let ghost before = self@;
        let ghost start = out@;
        let ghost fm = facts_model(facts@);
        let ghost given = *fuel as nat;
        match statement {
            Statement::WhileLoop { condition: test, body } => {
                let holds = match self.truth(test, facts, out) {
                    Ok(b) => b,
                    Err(e) => {
                        return Err(e);
                    },
                };
                let ghost more = condition(before.locals, test@, fm)->Ok_0.0;
                if !holds {
                    assert(out@ == start + more && looped(before, statement@, fm, given) == Ok::<
                        Ran,
                        RunnerErrorModel,
                    >(Ran { runner: self@, written: more, signal: None, fuel: *fuel as nat }));
                    return Ok(false);
                }
                if *fuel == 0 {
                    return Err(RunnerError::OutOfSteps);
                }
                *fuel = *fuel - 1;
                let signal = match self.run(body, true, facts, fuel, out) {
                    Ok(signal) => signal,
                    Err(e) => {
                        return Err(e);
                    },
                };
                let ghost done_turn = ran(before, block_model(body@), true, fm, (given - 1) as nat)->Ok_0;
                let ghost both = more + done_turn.written;
                proof {
                    assert(out@ =~= start + both);
                    lemma_writing_twice(
                        more,
                        done_turn.written,
                        looped(done_turn.runner, statement@, fm, done_turn.fuel),
                    );
                }
                match signal {
                    Some(0) => {
                        assert(out@ == start + both && looped(before, statement@, fm, given) == Ok::<
                            Ran,
                            RunnerErrorModel,
                        >(Ran { runner: self@, written: both, signal: None, fuel: *fuel as nat }));
                        Ok(false)
                    },
                    _ => {
                        assert(out@ == start + both && looped(before, statement@, fm, given)
                            == after_writing(both, looped(self@, statement@, fm, *fuel as nat)));
                        Ok(true)
                    },
                }
            },
            _ => Err(RunnerError::Unsupported),
        }
    }

    fn loop_while(
        &mut self,
        statement: &Statement,
        facts: &Vec<FloatFact>,
        fuel: &mut usize,
        out: &mut String,
    ) -> (r: Result<Option<u8>, RunnerError>)
        ensures
            done(
                looped(old(self)@, statement@, facts_model(facts@), *old(fuel) as nat),
                r,
                final(self)@,
                old(out)@,
                final(out)@,
                *final(fuel),
            ),
            r is Ok ==> *final(fuel) <= *old(fuel),
        decreases *old(fuel), statement, 1int,
    {
        let ghost before = self@;
        let ghost start = out@;
        let ghost fm = facts_model(facts@);
        let ghost given = *fuel as nat;
        match statement {
            Statement::WhileLoop { .. } => {},
            _ => {
                return Err(RunnerError::Unsupported);
            },
        }
        let ghost mut written: Seq<char> = Seq::empty();
        proof {
            assert(start + written =~= start);
            lemma_writing_twice(written, written, looped(before, statement@, fm, given));
        }
        loop
            invariant
                fm == facts_model(facts@),
                before == old(self)@,
                start == old(out)@,
                given == *old(fuel) as nat,
                statement@ is WhileLoop,
                *fuel <= *old(fuel),
                out@ == start + written,
                looped(before, statement@, fm, given) == after_writing(
                    written,
                    looped(self@, statement@, fm, *fuel as nat),
                ),
            decreases *fuel,
        {
            let ghost here = self@;
            let ghost reached = out@;
            let ghost left_now = *fuel as nat;
            let again = match self.turn(statement, facts, fuel, out) {
                Ok(again) => again,
                Err(e) => {
                    return Err(e);
                },
            };
            if !again {
                proof {
                    let more = choose|more: Seq<char>|
                        out@ == reached + more && #[trigger] looped(here, statement@, fm, left_now) == Ok::<
                            Ran,
                            RunnerErrorModel,
                        >(Ran { runner: self@, written: more, signal: None, fuel: *fuel as nat });
                    assert(out@ =~= start + (written + more));
                }
                return Ok(None);
            }
            proof {
                let more = choose|more: Seq<char>|
                    out@ == reached + more && looped(here, statement@, fm, left_now)
                        == #[trigger] after_writing(
                        more,
                        looped(self@, statement@, fm, *fuel as nat),
                    );
                lemma_writing_twice(written, more, looped(self@, statement@, fm, *fuel as nat));
                assert(out@ =~= start + (written + more));
                written = written + more;
            }
        }
    }

    /// Runs the block `stmts`: it counts the variables that its statements make, and
    /// forgets them at its end. What the block writes is appended to `out`, and each turn of
    /// a loop takes one off `fuel`. Returns 0 where a `break` is on its way to the loop
    /// around, 1 for a `continue`.
    pub fn run(
        &mut self,
        stmts: &Vec<Statement>,
        from_loop: bool,
        facts: &Vec<FloatFact>,
        fuel: &mut usize,
        out: &mut String,
    ) -> (r: Result<Option<u8>, RunnerError>)
        ensures
            done(
                ran(
                    old(self)@,
                    block_model(stmts@),
                    from_loop,
                    facts_model(facts@),
                    *old(fuel) as nat,
                ),
                r,
                final(self)@,
                old(out)@,
                final(out)@,
                *final(fuel),
            ),
            r is Ok ==> *final(fuel) <= *old(fuel),
        decreases *old(fuel), stmts, 0int,
    {
        let ghost before = self@;
        let ghost start = out@;
        let ghost fm = facts_model(facts@);
        let ghost sm = block_model(stmts@);
        let ghost given = *fuel as nat;
        self.locals_scope.push(0);
        let ghost entered = self@;
        assert(entered == (RunnerModel { scope: before.scope.push(0usize), ..before }));
        let ghost mut written: Seq<char> = Seq::empty();
        assert(start + written =~= start);
        proof {
            lemma_ran_first_none(entered, sm, from_loop, fm, given);
        }
        let mut i: usize = 0;
        while i < stmts.len()
            invariant
                i <= stmts.len(),
                fm == facts_model(facts@),
                sm == block_model(stmts@),
                before == old(self)@,
                start == old(out)@,
                given == *old(fuel) as nat,
                entered == (RunnerModel { scope: before.scope.push(0usize), ..before }),
                *fuel <= *old(fuel),
                out@ == start + written,
                ran_first(entered, sm, i as int, from_loop, fm, given) == Ok::<Ran, RunnerErrorModel>(
                    Ran { runner: self@, written, signal: None, fuel: *fuel as nat },
                ),
            decreases stmts.len() - i,
        {
            let ghost here = Ran { runner: self@, written, signal: None, fuel: *fuel as nat };
            let r = self.execute(&stmts[i], from_loop, facts, fuel, out);
            proof {
                lemma_ran_first_next(entered, sm, i as int, from_loop, fm, given, here);
                lemma_done_after_writing(
                    written,
                    executed(here.runner, sm[i as int], from_loop, fm, here.fuel),
                    r,
                    self@,
                    start,
                    out@,
                    *fuel,
                );
            }
            let signal = match r {
                Ok(signal) => signal,
                Err(e) => {
                    proof {
                        lemma_ran_first_stops(entered, sm, i as int + 1, stmts.len() as int, from_loop, fm, given);
                    }
                    return Err(e);
                },
            };
            proof {
                let last = executed(here.runner, sm[i as int], from_loop, fm, here.fuel)->Ok_0;
                written = written + last.written;
            }
            if signal.is_some() {
                proof {
                    lemma_ran_first_stops(entered, sm, i as int + 1, stmts.len() as int, from_loop, fm, given);
                }
                return Ok(signal);
            }
            i += 1;
        }
        match self.forget() {
            Ok(()) => Ok(None),
            Err(e) => Err(e),
        }
    }
}

} // verus!
