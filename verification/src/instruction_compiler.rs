//! The compiler from statements to the code of the stack machine, before its labels are
//! resolved.

use crate::error::CompileError;
use crate::eval_parser::expr_model;
use crate::eval_parser::exprs_model;
use crate::eval_parser::leaf_model;
use crate::eval_parser::EvalValue;
use crate::eval_parser::ExprAst;
use crate::eval_parser::ExprModel;
use crate::instruction::code_model;
use crate::instruction::Instruction;
use crate::instruction::InstructionModel;
use crate::int_value::widened;
use crate::int_value::IntValue;
use crate::operators::BinaryOp;
use crate::parser::block_model;
use crate::parser::branches_model;
use crate::parser::Statement;
use crate::parser::StatementModel;
use crate::value::names_model;
use crate::text::decimal;
use crate::text::parse_i64;
use crate::text::parse_int;
use crate::text::text_eq;
use crate::text::unsigned_text;
use crate::value::copy_float;
use crate::value::BoolValue;
use crate::value::FloatValue;
use crate::value::ObjectCreator;
use crate::value::StringValue;
use crate::value::ValueType;
use crate::virtual_machine::classes_model;
use vstd::hash_map::StringHashMap;
use vstd::string::StringExecFns;
use crate::value::CreatorModel;
use crate::value::FloatModel;
use crate::value::ValueTypeModel;
use vstd::prelude::*;

verus! {

broadcast use vstd::std_specs::vec::group_vec_axioms;

/// When a jump is taken.
#[derive(Clone, Copy, Debug, PartialEq, Eq, Structural)]
pub enum JumpKind {
    Always,
    IfTrue,
    IfFalse,
}

/// An item of the code before its labels are resolved, as a mathematical value: an
/// instruction, a label that marks the place of the item after it, or a jump to a label.
pub enum TranslationModel {
    Instruction(InstructionModel),
    Label(usize),
    Jump(JumpKind, usize),
}

/// What the compiler has gathered so far: the number of labels handed out, the functions
/// defined with the label of their entry, and the classes declared.
pub struct CompilerModel {
    pub label_count: int,
    pub functions: Seq<(Seq<char>, usize)>,
    pub classes: Map<Seq<char>, CreatorModel>,
}

/// Where a statement stands: the labels that `continue` and `break` jump to, where a loop
/// is around it; whether a function is around it; and the variables that a jump out of
/// the loop, or a return from the function, has to delete: those that the blocks around the
/// statement have introduced, before it, inside the loop and inside the function.
#[derive(Debug, PartialEq)]
pub struct Scope {
    pub start: Option<usize>,
    pub end: Option<usize>,
    pub in_function: bool,
    pub loop_live: Vec<String>,
    pub function_live: Vec<String>,
}

/// A [`Scope`] as a mathematical value.
pub struct ScopeModel {
    pub start: Option<usize>,
    pub end: Option<usize>,
    pub in_function: bool,
    pub loop_live: Seq<Seq<char>>,
    pub function_live: Seq<Seq<char>>,
}

impl View for Scope {
    type V = ScopeModel;

    open spec fn view(&self) -> ScopeModel {
        ScopeModel {
            start: self.start,
            end: self.end,
            in_function: self.in_function,
            loop_live: names_model(self.loop_live@),
            function_live: names_model(self.function_live@),
        }
    }
}

/// The scope of a statement that stands after statements of its block that have introduced
/// `names`: those variables are alive too.
pub open spec fn entered(scope: ScopeModel, names: Seq<Seq<char>>) -> ScopeModel {
    ScopeModel {
        loop_live: scope.loop_live + names,
        function_live: scope.function_live + names,
        ..scope
    }
}

/// The scope of the body of a loop with the labels `start` and `end`: no variable has been
/// introduced inside the loop yet.
pub open spec fn in_loop(scope: ScopeModel, start: usize, end: usize) -> ScopeModel {
    ScopeModel { start: Some(start), end: Some(end), loop_live: Seq::empty(), ..scope }
}

/// The scope of the statements of a program: no loop and no function around them.
pub open spec fn outermost() -> ScopeModel {
    ScopeModel {
        start: None,
        end: None,
        in_function: false,
        loop_live: Seq::empty(),
        function_live: Seq::empty(),
    }
}

/// The scope of the body of a function: no loop is around it, and no variable has been
/// introduced inside it yet.
pub open spec fn in_function() -> ScopeModel {
    ScopeModel {
        start: None,
        end: None,
        in_function: true,
        loop_live: Seq::empty(),
        function_live: Seq::empty(),
    }
}

/// The code of a statement or of a run of statements, the state of the compiler after it,
/// and the variables that it introduces at its own level.
pub struct Lowered {
    pub compiler: CompilerModel,
    pub code: Seq<TranslationModel>,
    pub names: Seq<Seq<char>>,
}

/// The float that the table lists for the literal `text`: the first entry with that text.
pub open spec fn float_of(table: Seq<(Seq<char>, FloatModel)>, text: Seq<char>, from: int) -> Option<
    FloatModel,
>
    decreases table.len() - from,
{
    if from < 0 || from >= table.len() {
        None
    } else if table[from].0 == text {
        Some(table[from].1)
    } else {
        float_of(table, text, from + 1)
    }
}

/// The instruction that applies `op`.
pub open spec fn op_instruction(op: BinaryOp) -> InstructionModel {
    match op {
        BinaryOp::Add => InstructionModel::Add,
        BinaryOp::Sub => InstructionModel::Sub,
        BinaryOp::Mul => InstructionModel::Mul,
        BinaryOp::Div => InstructionModel::Div,
        BinaryOp::Eq => InstructionModel::Eq,
        BinaryOp::Neq => InstructionModel::Neq,
        BinaryOp::Lt => InstructionModel::Lt,
        BinaryOp::Gt => InstructionModel::Gt,
        BinaryOp::LtEq => InstructionModel::LtEq,
        BinaryOp::GtEq => InstructionModel::GtEq,
    }
}

/// The instruction that pushes `n` as a 32-bit integer.
pub open spec fn push_count(n: int) -> InstructionModel {
    InstructionModel::Push(ValueTypeModel::Int(IntValue::Int32(n as i32)))
}

/// The two instructions that end a call with `count` arguments.
pub open spec fn call_code(name: Seq<char>, count: int) -> Seq<InstructionModel> {
    seq![push_count(count), InstructionModel::Call(name)]
}

/// The code that leaves the value of `e` on the stack.
///
/// A literal is pushed: an integer under the narrowest tag that holds it, a float as the
/// table lists it. A name is loaded. A list starts from an empty vector, to which the
/// built-in `push` appends the elements one by one. A call evaluates its arguments from the
/// left, pushes their number and calls. An operation evaluates its left operand, then its
/// right one, and applies the operator.
pub open spec fn lower_expr(e: ExprModel, floats: Seq<(Seq<char>, FloatModel)>) -> Result<
    Seq<InstructionModel>,
    CompileError,
>
    decreases e, 0int,
{
    match e {
        ExprModel::Reference(name) => Ok(seq![InstructionModel::Load(name)]),
        ExprModel::Integer(text) => match parse_i64(text) {
            Some(v) => match widened(v as int, 1) {
                Some(i) => Ok(seq![InstructionModel::Push(ValueTypeModel::Int(i))]),
                None => Err(CompileError::IntegerLiteral),
            },
            None => Err(CompileError::IntegerLiteral),
        },
        ExprModel::Float(text) => match float_of(floats, text, 0) {
            Some(f) => Ok(seq![InstructionModel::Push(ValueTypeModel::Float(f))]),
            None => Err(CompileError::FloatLiteral),
        },
        ExprModel::Text(s) => Ok(seq![InstructionModel::Push(ValueTypeModel::String(s))]),
        ExprModel::Boolean(b) => Ok(seq![InstructionModel::Push(ValueTypeModel::Bool(b))]),
        ExprModel::List(items) => match lower_items(items, items.len() as int, floats) {
            Ok(code) => Ok(seq![InstructionModel::Push(ValueTypeModel::Vector(Seq::empty()))] + code),
            Err(e) => Err(e),
        },
        ExprModel::Call(name, args) => lower_call(name, args, floats),
        ExprModel::Binary(op, lhs, rhs) => match lower_expr(*lhs, floats) {
            Err(e) => Err(e),
            Ok(left) => match lower_expr(*rhs, floats) {
                Err(e) => Err(e),
                Ok(right) => Ok(left + right + seq![op_instruction(op)]),
            },
        },
    }
}

/// The code of a call: the arguments from the left, their number, and the call.
pub open spec fn lower_call(name: Seq<char>, args: Seq<ExprModel>, floats: Seq<(Seq<char>, FloatModel)>) -> Result<
    Seq<InstructionModel>,
    CompileError,
>
    decreases args, args.len() + 1,
{
    if args.len() > i32::MAX {
        Err(CompileError::TooLarge)
    } else {
        match lower_all(args, args.len() as int, floats) {
            Ok(code) => Ok(code + call_code(name, args.len() as int)),
            Err(e) => Err(e),
        }
    }
}

/// The code of the first `n` of `es`, one after the other.
pub open spec fn lower_all(es: Seq<ExprModel>, n: int, floats: Seq<(Seq<char>, FloatModel)>) -> Result<
    Seq<InstructionModel>,
    CompileError,
>
    decreases es, n,
{
    if n <= 0 || n > es.len() {
        Ok(Seq::empty())
    } else {
        match lower_all(es, n - 1, floats) {
            Err(e) => Err(e),
            Ok(before) => match lower_expr(es[n - 1], floats) {
                Err(e) => Err(e),
                Ok(code) => Ok(before + code),
            },
        }
    }
}

/// The code that appends the first `n` of `es` to the vector on top of the stack.
pub open spec fn lower_items(es: Seq<ExprModel>, n: int, floats: Seq<(Seq<char>, FloatModel)>) -> Result<
    Seq<InstructionModel>,
    CompileError,
>
    decreases es, n,
{
    if n <= 0 || n > es.len() {
        Ok(Seq::empty())
    } else {
        match lower_items(es, n - 1, floats) {
            Err(e) => Err(e),
            Ok(before) => match lower_expr(es[n - 1], floats) {
                Err(e) => Err(e),
                Ok(code) => Ok(before + code + call_code("push"@, 2)),
            },
        }
    }
}

/// Instructions as items of unresolved code.
pub open spec fn plain(code: Seq<InstructionModel>) -> Seq<TranslationModel> {
    Seq::new(code.len(), |i: int| TranslationModel::Instruction(code[i]))
}

/// One instruction as an item of unresolved code.
pub open spec fn one(i: InstructionModel) -> Seq<TranslationModel> {
    seq![TranslationModel::Instruction(i)]
}

/// A `NewVariable` for each of `names`, in order.
pub open spec fn new_variables(names: Seq<Seq<char>>) -> Seq<TranslationModel> {
    Seq::new(names.len(), |i: int| TranslationModel::Instruction(InstructionModel::NewVariable(names[i])))
}

/// A `Delete` for each of `names`, in order.
pub open spec fn deletes(names: Seq<Seq<char>>) -> Seq<TranslationModel> {
    Seq::new(names.len(), |i: int| TranslationModel::Instruction(InstructionModel::Delete(names[i])))
}

/// The first `n` items of `code`, with a `Delete` for each of `names` before every `Return`.
pub open spec fn with_deletes(code: Seq<TranslationModel>, names: Seq<Seq<char>>, n: int) -> Seq<
    TranslationModel,
>
    decreases n,
{
    if n <= 0 || n > code.len() {
        Seq::empty()
    } else if code[n - 1] == TranslationModel::Instruction(InstructionModel::Return) {
        with_deletes(code, names, n - 1) + deletes(names) + seq![code[n - 1]]
    } else {
        with_deletes(code, names, n - 1).push(code[n - 1])
    }
}

/// The index of the first function at or after `from` whose name is `name`; the number of
/// functions where there is none.
pub open spec fn function_index(functions: Seq<(Seq<char>, usize)>, name: Seq<char>, from: int) -> int
    decreases functions.len() - from,
{
    if from < 0 || from >= functions.len() {
        functions.len() as int
    } else if functions[from].0 == name {
        from
    } else {
        function_index(functions, name, from + 1)
    }
}

/// Whether a function is defined under `name`.
pub open spec fn has_function(c: CompilerModel, name: Seq<char>) -> bool {
    function_index(c.functions, name, 0) < c.functions.len()
}

/// The message with which a function turns down a wrong number of arguments.
pub open spec fn arity_message(n: int) -> Seq<char> {
    "Error: Expected "@ + decimal(n) + " arguments"@
}

/// The code with which a function of `n` parameters begins, after its entry label: it
/// compares the number of arguments with `n` and asserts that they are equal.
pub open spec fn arity_guard(n: int) -> Seq<TranslationModel> {
    plain(
        seq![
            push_count(n),
            InstructionModel::Eq,
            InstructionModel::Push(ValueTypeModel::String(arity_message(n))),
            push_count(2),
            InstructionModel::Call("assert"@),
        ],
    )
}

/// The code of an assignment: the value, and a new variable made of it, which the end
/// of the block deletes.
pub open spec fn lower_assignment(
    c: CompilerModel,
    name: Seq<char>,
    value: ExprModel,
    floats: Seq<(Seq<char>, FloatModel)>,
) -> Result<Lowered, CompileError> {
    match lower_expr(value, floats) {
        Err(e) => Err(e),
        Ok(code) => Ok(
            Lowered {
                compiler: c,
                code: plain(code) + one(InstructionModel::NewVariable(name)),
                names: seq![name],
            },
        ),
    }
}

/// The code of a multiple assignment: the value, and a new variable for each name.
pub open spec fn lower_multi_assignment(
    c: CompilerModel,
    variables: Seq<Seq<char>>,
    value: ExprModel,
    floats: Seq<(Seq<char>, FloatModel)>,
) -> Result<Lowered, CompileError> {
    match lower_expr(value, floats) {
        Err(e) => Err(e),
        Ok(code) => Ok(
            Lowered { compiler: c, code: plain(code) + new_variables(variables), names: variables },
        ),
    }
}

/// The code of a reassignment: the value, and a store.
pub open spec fn lower_reassignment(
    c: CompilerModel,
    name: Seq<char>,
    value: ExprModel,
    floats: Seq<(Seq<char>, FloatModel)>,
) -> Result<Lowered, CompileError> {
    match lower_expr(value, floats) {
        Err(e) => Err(e),
        Ok(code) => Ok(
            Lowered {
                compiler: c,
                code: plain(code) + one(InstructionModel::Store(name)),
                names: Seq::empty(),
            },
        ),
    }
}

/// The code of a call statement: that of the call.
pub open spec fn lower_call_statement(
    c: CompilerModel,
    name: Seq<char>,
    args: Seq<ExprModel>,
    floats: Seq<(Seq<char>, FloatModel)>,
) -> Result<Lowered, CompileError> {
    match lower_call(name, args, floats) {
        Err(e) => Err(e),
        Ok(code) => Ok(Lowered { compiler: c, code: plain(code), names: Seq::empty() }),
    }
}

/// The code of `break` or `continue`: a `Delete` for each of `live`, the variables that
/// the blocks inside the loop have introduced so far, and a jump to the label `target` of the
/// loop; `error` where no loop is around.
pub open spec fn lower_jump(
    c: CompilerModel,
    target: Option<usize>,
    live: Seq<Seq<char>>,
    error: CompileError,
) -> Result<Lowered, CompileError> {
    match target {
        Some(label) => Ok(
            Lowered {
                compiler: c,
                code: deletes(live) + seq![TranslationModel::Jump(JumpKind::Always, label)],
                names: Seq::empty(),
            },
        ),
        None => Err(error),
    }
}

/// The code of `return`: the values from the left, a `Delete` for each variable that the
/// blocks inside the function have introduced so far, and a `Return`.
pub open spec fn lower_return(
    c: CompilerModel,
    values: Seq<ExprModel>,
    scope: ScopeModel,
    floats: Seq<(Seq<char>, FloatModel)>,
) -> Result<Lowered, CompileError> {
    if !scope.in_function {
        Err(CompileError::ReturnOutsideFunction)
    } else {
        match lower_all(values, values.len() as int, floats) {
            Err(e) => Err(e),
            Ok(code) => Ok(
                Lowered {
                    compiler: c,
                    code: plain(code) + deletes(scope.function_live) + one(InstructionModel::Return),
                    names: Seq::empty(),
                },
            ),
        }
    }
}

/// What a class declaration does: it registers the class, and emits no code.
pub open spec fn lower_class(c: CompilerModel, class_name: Seq<char>, members: Seq<Seq<char>>) -> Result<
    Lowered,
    CompileError,
> {
    if has_function(c, class_name) {
        Err(CompileError::ClassNamedAsFunction)
    } else if c.classes.contains_key(class_name) {
        Err(CompileError::DuplicateClass)
    } else {
        Ok(
            Lowered {
                compiler: CompilerModel {
                    classes: c.classes.insert(class_name, CreatorModel { name: class_name, members }),
                    ..c
                },
                code: Seq::empty(),
                names: Seq::empty(),
            },
        )
    }
}

/// The code of one statement.
///
/// An assignment evaluates its value and makes a variable of it, which the end of the
/// block deletes; a multiple assignment makes a variable for each name. A reassignment
/// stores. A call statement is the call. A conditional jumps over each body whose condition
/// is false, and from the end of each body to the end of the statement. A loop tests its
/// condition at its start label and jumps to its end label when it is false. `break` and
/// `continue` delete the variables that the blocks inside the loop have introduced before
/// them, and jump to the end and the start of the loop around them. `return` evaluates its
/// values, deletes the variables that the blocks inside the function have introduced before
/// it, and returns. A function definition is jumped over; at its entry it tests the number
/// of arguments, makes a variable of each parameter, last parameter first, and deletes them
/// before every `Return` of its body. A class declaration emits nothing.
///
/// So on every way out of a block the variables that the block has introduced are
/// deleted: at its end, before a jump out of it, and before a return.
pub open spec fn lower_statement(
    c: CompilerModel,
    s: StatementModel,
    scope: ScopeModel,
    floats: Seq<(Seq<char>, FloatModel)>,
) -> Result<Lowered, CompileError>
    decreases s, 1int, 0int,
{
    match s {
        StatementModel::VariableAssignment { name, value } => lower_assignment(c, name, value, floats),
        StatementModel::VariableMultiAssignment { variables, value } => lower_multi_assignment(
            c,
            variables,
            value,
            floats,
        ),
        StatementModel::VariableReassignment { name, value } => lower_reassignment(
            c,
            name,
            value,
            floats,
        ),
        StatementModel::FunctionCall { name, args } => lower_call_statement(c, name, args, floats),
        StatementModel::Conditional { .. } => lower_conditional(c, s, scope, floats),
        StatementModel::WhileLoop { .. } => lower_while(c, s, scope, floats),
        StatementModel::Continue => lower_jump(
            c,
            scope.start,
            scope.loop_live,
            CompileError::ContinueOutsideLoop,
        ),
        StatementModel::Break => lower_jump(
            c,
            scope.end,
            scope.loop_live,
            CompileError::BreakOutsideLoop,
        ),
        StatementModel::FunctionDefinition { .. } => lower_function(c, s, floats),
        StatementModel::Return { returns: values } => lower_return(c, values, scope, floats),
        StatementModel::ClassDeclaration { class_name, members } => lower_class(
            c,
            class_name,
            members,
        ),
        StatementModel::ForLoop { .. } => Err(CompileError::Unsupported),
    }
}

/// The code of a conditional: the test; a jump over the body where it is false; the body; a
/// jump to the end; then each `else if` in the same way, the `else` body if there is one, and
/// the end label.
pub open spec fn lower_conditional(
    c: CompilerModel,
    s: StatementModel,
    scope: ScopeModel,
    floats: Seq<(Seq<char>, FloatModel)>,
) -> Result<Lowered, CompileError>
    decreases s, 0int, 0int,
{
    match s {
        StatementModel::Conditional { condition, body, else_if_conditions, else_body } => {
            match lower_expr(condition, floats) {
                Err(e) => Err(e),
                Ok(test) => if c.label_count + 2 > usize::MAX {
                    Err(CompileError::TooLarge)
                } else {
                    let end = c.label_count as usize;
                    let body_end = (c.label_count + 1) as usize;
                    let c1 = CompilerModel { label_count: c.label_count + 2, ..c };
                    match lower_block(c1, body, scope, floats) {
                        Err(e) => Err(e),
                        Ok((c2, inner)) => match lower_branches(
                            c2,
                            else_if_conditions,
                            else_if_conditions.len() as int,
                            end,
                            scope,
                            floats,
                        ) {
                            Err(e) => Err(e),
                            Ok((c3, branches)) => {
                                let first = plain(test) + seq![
                                    TranslationModel::Jump(JumpKind::IfFalse, body_end),
                                ] + inner + seq![
                                    TranslationModel::Jump(JumpKind::Always, end),
                                    TranslationModel::Label(body_end),
                                ];
                                match else_body {
                                    None => Ok(
                                        Lowered {
                                            compiler: c3,
                                            code: first + branches + seq![TranslationModel::Label(end)],
                                            names: Seq::empty(),
                                        },
                                    ),
                                    Some(b) => match lower_block(c3, b, scope, floats) {
                                        Err(e) => Err(e),
                                        Ok((c4, last)) => Ok(
                                            Lowered {
                                                compiler: c4,
                                                code: first + branches + last + seq![
                                                    TranslationModel::Label(end),
                                                ],
                                                names: Seq::empty(),
                                            },
                                        ),
                                    },
                                }
                            },
                        },
                    }
                },
            }
        },
        _ => Err(CompileError::Unsupported),
    }
}

/// The code of a loop: the start label; the test; a jump to the end label where it is false;
/// the body, in which `continue` and `break` jump to the two labels; a jump to the start
/// label; and the end label.
pub open spec fn lower_while(
    c: CompilerModel,
    s: StatementModel,
    scope: ScopeModel,
    floats: Seq<(Seq<char>, FloatModel)>,
) -> Result<Lowered, CompileError>
    decreases s, 0int, 0int,
{
    match s {
        StatementModel::WhileLoop { condition, body } => if c.label_count + 2 > usize::MAX {
            Err(CompileError::TooLarge)
        } else {
            let start = c.label_count as usize;
            let end = (c.label_count + 1) as usize;
            let c1 = CompilerModel { label_count: c.label_count + 2, ..c };
            match lower_expr(condition, floats) {
                Err(e) => Err(e),
                Ok(test) => match lower_block(
                    c1,
                    body,
                    in_loop(scope, start, end),
                    floats,
                ) {
                    Err(e) => Err(e),
                    Ok((c2, inner)) => Ok(
                        Lowered {
                            compiler: c2,
                            code: seq![TranslationModel::Label(start)] + plain(test) + seq![
                                TranslationModel::Jump(JumpKind::IfFalse, end),
                            ] + inner + seq![
                                TranslationModel::Jump(JumpKind::Always, start),
                                TranslationModel::Label(end),
                            ],
                            names: Seq::empty(),
                        },
                    ),
                },
            }
        },
        _ => Err(CompileError::Unsupported),
    }
}

/// The code of a function definition: a jump over it; the entry label, under which the
/// function is registered; the test of the number of arguments; a variable for each
/// parameter, last parameter first; the body, with the parameters deleted before every
/// `Return`; and the label that the first jump goes to.
pub open spec fn lower_function(
    c: CompilerModel,
    s: StatementModel,
    floats: Seq<(Seq<char>, FloatModel)>,
) -> Result<Lowered, CompileError>
    decreases s, 0int, 0int,
{
    match s {
        StatementModel::FunctionDefinition { name, args, body } => if has_function(c, name) {
            Err(CompileError::DuplicateFunction)
        } else if c.classes.contains_key(name) {
            Err(CompileError::FunctionNamedAsClass)
        } else if args.len() > i32::MAX || c.label_count + 2 > usize::MAX {
            Err(CompileError::TooLarge)
        } else {
            let end = c.label_count as usize;
            let entry = (c.label_count + 1) as usize;
            let c1 = CompilerModel {
                label_count: c.label_count + 2,
                functions: c.functions.push((name, entry)),
                classes: c.classes,
            };
            match lower_block(c1, body, in_function(), floats) {
                Err(e) => Err(e),
                Ok((c2, inner)) => Ok(
                    Lowered {
                        compiler: c2,
                        code: seq![
                            TranslationModel::Jump(JumpKind::Always, end),
                            TranslationModel::Label(entry),
                        ] + arity_guard(args.len() as int) + new_variables(args.reverse())
                            + with_deletes(inner, args, inner.len() as int) + seq![
                            TranslationModel::Label(end),
                        ],
                        names: Seq::empty(),
                    },
                ),
            }
        },
        _ => Err(CompileError::Unsupported),
    }
}

/// The code of the first `n` of `branches`, each an `else if` of a conditional whose end
/// label is `end`.
pub open spec fn lower_branches(
    c: CompilerModel,
    branches: Seq<(ExprModel, Seq<StatementModel>)>,
    n: int,
    end: usize,
    scope: ScopeModel,
    floats: Seq<(Seq<char>, FloatModel)>,
) -> Result<(CompilerModel, Seq<TranslationModel>), CompileError>
    decreases branches, n, 0int,
{
    if n <= 0 || n > branches.len() {
        Ok((c, Seq::empty()))
    } else {
        match lower_branches(c, branches, n - 1, end, scope, floats) {
            Err(e) => Err(e),
            Ok((c1, before)) => match lower_expr(branches[n - 1].0, floats) {
                Err(e) => Err(e),
                Ok(test) => if c1.label_count + 1 > usize::MAX {
                    Err(CompileError::TooLarge)
                } else {
                    let body_end = c1.label_count as usize;
                    let c2 = CompilerModel { label_count: c1.label_count + 1, ..c1 };
                    match lower_block(c2, branches[n - 1].1, scope, floats) {
                        Err(e) => Err(e),
                        Ok((c3, inner)) => Ok(
                            (
                                c3,
                                before + plain(test) + seq![
                                    TranslationModel::Jump(JumpKind::IfFalse, body_end),
                                ] + inner + seq![
                                    TranslationModel::Jump(JumpKind::Always, end),
                                    TranslationModel::Label(body_end),
                                ],
                            ),
                        ),
                    }
                },
            },
        }
    }
}

/// The code of the first `n` of `statements`, and the variables that they introduce.
pub open spec fn lower_statements(
    c: CompilerModel,
    statements: Seq<StatementModel>,
    n: int,
    scope: ScopeModel,
    floats: Seq<(Seq<char>, FloatModel)>,
) -> Result<Lowered, CompileError>
    decreases statements, n, 0int,
{
    if n <= 0 || n > statements.len() {
        Ok(Lowered { compiler: c, code: Seq::empty(), names: Seq::empty() })
    } else {
        match lower_statements(c, statements, n - 1, scope, floats) {
            Err(e) => Err(e),
            Ok(before) => match lower_statement(
                before.compiler,
                statements[n - 1],
                entered(scope, before.names),
                floats,
            ) {
                Err(e) => Err(e),
                Ok(last) => Ok(
                    Lowered {
                        compiler: last.compiler,
                        code: before.code + last.code,
                        names: before.names + last.names,
                    },
                ),
            },
        }
    }
}

/// The code of a block: the code of its statements, and then a `Delete` for each variable
/// that the statements of the block itself introduce, in the order in which they do.
pub open spec fn lower_block(
    c: CompilerModel,
    statements: Seq<StatementModel>,
    scope: ScopeModel,
    floats: Seq<(Seq<char>, FloatModel)>,
) -> Result<(CompilerModel, Seq<TranslationModel>), CompileError>
    decreases statements, statements.len() + 1, 0int,
{
    match lower_statements(c, statements, statements.len() as int, scope, floats) {
        Err(e) => Err(e),
        Ok(l) => Ok((l.compiler, l.code + deletes(l.names))),
    }
}



/// An item of the code before its labels are resolved: an instruction, a label that marks
/// the place of the item after it, or a jump to a label.
#[derive(Debug, PartialEq)]
pub enum Translation {
    Instruction(Instruction),
    Label(usize),
    Jump(JumpKind, usize),
}

impl View for Translation {
    type V = TranslationModel;

    open spec fn view(&self) -> TranslationModel {
        match self {
            Translation::Instruction(i) => TranslationModel::Instruction(i@),
            Translation::Label(id) => TranslationModel::Label(*id),
            Translation::Jump(kind, id) => TranslationModel::Jump(*kind, *id),
        }
    }
}

impl Clone for Translation {
    fn clone(&self) -> (r: Self)
        ensures
            r@ == self@,
    {
        match self {
            Translation::Instruction(i) => Translation::Instruction(i.clone()),
            Translation::Label(id) => Translation::Label(*id),
            Translation::Jump(kind, id) => Translation::Jump(*kind, *id),
        }
    }
}

/// The items of `code` as mathematical values.
pub open spec fn translations_model(code: Seq<Translation>) -> Seq<TranslationModel> {
    Seq::new(code.len(), |i: int| code[i]@)
}

/// A float literal of the source with the float that it writes. The compiler does not read
/// floats: whoever calls it lists the float literals of the program and what they stand for.
#[derive(Debug, PartialEq)]
pub struct FloatLiteral {
    pub text: String,
    pub value: FloatValue,
}

/// A table of float literals as a mathematical value.
pub open spec fn floats_model(table: Seq<FloatLiteral>) -> Seq<(Seq<char>, FloatModel)> {
    Seq::new(table.len(), |i: int| (table[i].text@, table[i].value@))
}

/// The functions of `functions` as mathematical values.
pub open spec fn functions_model(functions: Seq<(String, usize)>) -> Seq<(Seq<char>, usize)> {
    Seq::new(functions.len(), |i: int| (functions[i].0@, functions[i].1))
}

fn find_float(table: &Vec<FloatLiteral>, text: &str) -> (r: Option<FloatValue>)
    ensures
        match float_of(floats_model(table@), text@, 0) {
            Some(f) => r matches Some(x) && x@ == f,
            None => r is None,
        },
{
    let mut i: usize = 0;
    while i < table.len()
        invariant
            i <= table.len(),
            float_of(floats_model(table@), text@, 0) == float_of(floats_model(table@), text@, i as int),
        decreases table.len() - i,
    {
        if text_eq(table[i].text.as_str(), text) {
            return Some(copy_float(&table[i].value));
        }
        i += 1;
    }
    None
}

fn narrowest(v: i64) -> (r: IntValue)
    ensures
        Some(r) == widened(v as int, 1),
{
    if -128 <= v && v <= 127 {
        IntValue::Int8(v as i8)
    } else if -32768 <= v && v <= 32767 {
        IntValue::Int16(v as i16)
    } else if -2147483648 <= v && v <= 2147483647 {
        IntValue::Int32(v as i32)
    } else {
        IntValue::Int64(v)
    }
}

fn operator_instruction(op: BinaryOp) -> (r: Instruction)
    ensures
        r@ == op_instruction(op),
{
    match op {
        BinaryOp::Add => Instruction::Add,
        BinaryOp::Sub => Instruction::Sub,
        BinaryOp::Mul => Instruction::Mul,
        BinaryOp::Div => Instruction::Div,
        BinaryOp::Eq => Instruction::Eq,
        BinaryOp::Neq => Instruction::Neq,
        BinaryOp::Lt => Instruction::Lt,
        BinaryOp::Gt => Instruction::Gt,
        BinaryOp::LtEq => Instruction::LtEq,
        BinaryOp::GtEq => Instruction::GtEq,
    }
}

fn emit(out: &mut Vec<Instruction>, i: Instruction)
    ensures
        code_model(final(out)@) == code_model(old(out)@).push(i@),
{
    out.push(i);
    assert(code_model(out@) =~= code_model(old(out)@).push(i@));
}

fn emit_call(out: &mut Vec<Instruction>, name: &str, count: i32)
    ensures
        code_model(final(out)@) == code_model(old(out)@) + call_code(name@, count as int),
{
    emit(out, Instruction::Push(ValueType::Int(IntValue::Int32(count))));
    emit(out, Instruction::Call(name.to_string()));
    assert(code_model(out@) =~= code_model(old(out)@) + call_code(name@, count as int));
}

/// Appends the code that leaves the value of `expr` on the stack.
pub fn emit_expr(out: &mut Vec<Instruction>, expr: &ExprAst, floats: &Vec<FloatLiteral>) -> (r: Result<
    (),
    CompileError,
>)
    ensures
        match lower_expr(expr@, floats_model(floats@)) {
            Ok(code) => r is Ok && code_model(final(out)@) == code_model(old(out)@) + code,
            Err(e) => r == Err::<(), CompileError>(e),
        },
    decreases expr, 1int,
{
    proof {
        reveal_with_fuel(expr_model, 2);
        reveal_with_fuel(leaf_model, 2);
    }
    let (op, lhs, rhs) = match expr {
        ExprAst::Value { val: leaf } => return match leaf {
            EvalValue::IntegerLiteral { val } => match parse_int(val.as_str()) {
                Some(v) => {
                    assert(expr@ == ExprModel::Integer(val@));
                    emit(out, Instruction::Push(ValueType::Int(narrowest(v))));
                    assert(code_model(out@) =~= code_model(old(out)@) + lower_expr(
                        expr@,
                        floats_model(floats@),
                    )->Ok_0);
                    Ok(())
                },
                None => {
                    assert(expr@ == ExprModel::Integer(val@));
                    Err(CompileError::IntegerLiteral)
                },
            },
            EvalValue::FloatLiteral { val } => match find_float(floats, val.as_str()) {
                Some(f) => {
                    assert(expr@ == ExprModel::Float(val@));
                    emit(out, Instruction::Push(ValueType::Float(f)));
                    assert(code_model(out@) =~= code_model(old(out)@) + lower_expr(
                        expr@,
                        floats_model(floats@),
                    )->Ok_0);
                    Ok(())
                },
                None => {
                    assert(expr@ == ExprModel::Float(val@));
                    Err(CompileError::FloatLiteral)
                },
            },
            EvalValue::Stringliteral { val } => {
                assert(expr@ == ExprModel::Text(val@));
                emit(out, Instruction::Push(ValueType::String(StringValue::new(val.clone()))));
                assert(code_model(out@) =~= code_model(old(out)@) + lower_expr(
                    expr@,
                    floats_model(floats@),
                )->Ok_0);
                Ok(())
            },
            EvalValue::BooleanLiteral { val } => {
                assert(expr@ == ExprModel::Boolean(*val));
                emit(out, Instruction::Push(ValueType::Bool(BoolValue::new(*val))));
                assert(code_model(out@) =~= code_model(old(out)@) + lower_expr(
                    expr@,
                    floats_model(floats@),
                )->Ok_0);
                Ok(())
            },
            EvalValue::Reference { val } => {
                assert(expr@ == ExprModel::Reference(val@));
                emit(out, Instruction::Load(val.clone()));
                assert(code_model(out@) =~= code_model(old(out)@) + lower_expr(
                    expr@,
                    floats_model(floats@),
                )->Ok_0);
                Ok(())
            },
            EvalValue::List { val } => {
                assert(expr@ == ExprModel::List(exprs_model(val@)));
                let empty: Vec<crate::value::Value> = Vec::new();
                assert(crate::value::values_model(empty@) =~= Seq::empty());
                emit(out, Instruction::Push(ValueType::Vector(empty)));
                let ghost start = code_model(out@);
                match emit_items(out, val, floats) {
                    Err(e) => Err(e),
                    Ok(()) => {
                        proof {
                            let code = lower_items(
                                exprs_model(val@),
                                val.len() as int,
                                floats_model(floats@),
                            )->Ok_0;
                            assert(code_model(out@) =~= code_model(old(out)@) + (seq![
                                InstructionModel::Push(ValueTypeModel::Vector(Seq::empty())),
                            ] + code));
                        }
                        Ok(())
                    },
                }
            },
        },
        ExprAst::FunctionCall { name, args } => {
            return emit_call_of(out, name.as_str(), args, floats);
        },
        ExprAst::Addition { lhs, rhs } => (BinaryOp::Add, lhs, rhs),
        ExprAst::Subtraction { lhs, rhs } => (BinaryOp::Sub, lhs, rhs),
        ExprAst::Division { lhs, rhs } => (BinaryOp::Div, lhs, rhs),
        ExprAst::Multiplication { lhs, rhs } => (BinaryOp::Mul, lhs, rhs),
        ExprAst::Eq { lhs, rhs } => (BinaryOp::Eq, lhs, rhs),
        ExprAst::Neq { lhs, rhs } => (BinaryOp::Neq, lhs, rhs),
        ExprAst::GtEq { lhs, rhs } => (BinaryOp::GtEq, lhs, rhs),
        ExprAst::LtEq { lhs, rhs } => (BinaryOp::LtEq, lhs, rhs),
        ExprAst::Gt { lhs, rhs } => (BinaryOp::Gt, lhs, rhs),
        ExprAst::Lt { lhs, rhs } => (BinaryOp::Lt, lhs, rhs),
    };
    match emit_expr(out, lhs, floats) {
        Err(e) => {
            return Err(e);
        },
        Ok(()) => {},
    }
    match emit_expr(out, rhs, floats) {
        Err(e) => {
            return Err(e);
        },
        Ok(()) => {},
    }
    emit(out, operator_instruction(op));
    proof {
        let left = lower_expr(lhs@, floats_model(floats@))->Ok_0;
        let right = lower_expr(rhs@, floats_model(floats@))->Ok_0;
        assert(code_model(out@) =~= code_model(old(out)@) + (left + right + seq![op_instruction(op)]));
    }
    Ok(())
}

/// Where lowering the first `n` expressions fails, lowering more of them fails in the same way.
pub proof fn lemma_lower_all_fails(es: Seq<ExprModel>, n: int, m: int, floats: Seq<(Seq<char>, FloatModel)>)
    requires
        0 < n <= m <= es.len(),
        lower_all(es, n, floats) is Err,
    ensures
        lower_all(es, m, floats) == lower_all(es, n, floats),
    decreases m - n,
{
    if n < m {
        lemma_lower_all_fails(es, n, m - 1, floats);
    }
}

/// Where lowering the first `n` elements fails, lowering more of them fails in the same way.
pub proof fn lemma_lower_items_fails(es: Seq<ExprModel>, n: int, m: int, floats: Seq<(Seq<char>, FloatModel)>)
    requires
        0 < n <= m <= es.len(),
        lower_items(es, n, floats) is Err,
    ensures
        lower_items(es, m, floats) == lower_items(es, n, floats),
    decreases m - n,
{
    if n < m {
        lemma_lower_items_fails(es, n, m - 1, floats);
    }
}

/// Appends the code of each of `es`, in order.
pub fn emit_all(out: &mut Vec<Instruction>, es: &Vec<ExprAst>, floats: &Vec<FloatLiteral>) -> (r: Result<
    (),
    CompileError,
>)
    ensures
        match lower_all(exprs_model(es@), es.len() as int, floats_model(floats@)) {
            Ok(code) => r is Ok && code_model(final(out)@) == code_model(old(out)@) + code,
            Err(e) => r == Err::<(), CompileError>(e),
        },
    decreases es, 0int,
{
    let ghost models = exprs_model(es@);
    let ghost fm = floats_model(floats@);
    let mut i: usize = 0;
    assert(code_model(out@) =~= code_model(old(out)@) + Seq::<InstructionModel>::empty());
    while i < es.len()
        invariant
            i <= es.len(),
            models == exprs_model(es@),
            fm == floats_model(floats@),
            lower_all(models, i as int, fm) matches Ok(code) && code_model(out@) == code_model(
                old(out)@,
            ) + code,
        decreases es.len() - i,
    {
        let ghost before = lower_all(models, i as int, fm)->Ok_0;
        match emit_expr(out, &es[i], floats) {
            Err(e) => {
                proof {
                    lemma_lower_all_fails(models, i as int + 1, es.len() as int, fm);
                }
                return Err(e);
            },
            Ok(()) => {
                proof {
                    let code = lower_expr(models[i as int], fm)->Ok_0;
                    assert(code_model(out@) =~= code_model(old(out)@) + (before + code));
                }
            },
        }
        i += 1;
    }
    Ok(())
}

/// Appends the code that appends each of `es`, in order, to the vector on top of the stack.
pub fn emit_items(out: &mut Vec<Instruction>, es: &Vec<ExprAst>, floats: &Vec<FloatLiteral>) -> (r: Result<
    (),
    CompileError,
>)
    ensures
        match lower_items(exprs_model(es@), es.len() as int, floats_model(floats@)) {
            Ok(code) => r is Ok && code_model(final(out)@) == code_model(old(out)@) + code,
            Err(e) => r == Err::<(), CompileError>(e),
        },
    decreases es, 0int,
{
    let ghost models = exprs_model(es@);
    let ghost fm = floats_model(floats@);
    let mut i: usize = 0;
    assert(code_model(out@) =~= code_model(old(out)@) + Seq::<InstructionModel>::empty());
    while i < es.len()
        invariant
            i <= es.len(),
            models == exprs_model(es@),
            fm == floats_model(floats@),
            lower_items(models, i as int, fm) matches Ok(code) && code_model(out@) == code_model(
                old(out)@,
            ) + code,
        decreases es.len() - i,
    {
        let ghost before = lower_items(models, i as int, fm)->Ok_0;
        match emit_expr(out, &es[i], floats) {
            Err(e) => {
                proof {
                    lemma_lower_items_fails(models, i as int + 1, es.len() as int, fm);
                }
                return Err(e);
            },
            Ok(()) => {},
        }
        emit_call(out, "push", 2);
        proof {
            let code = lower_expr(models[i as int], fm)->Ok_0;
            assert(code_model(out@) =~= code_model(old(out)@) + (before + code + call_code(
                "push"@,
                2,
            )));
        }
        i += 1;
    }
    Ok(())
}

/// Appends the code of a call of `name` with the arguments `args`.
pub fn emit_call_of(out: &mut Vec<Instruction>, name: &str, args: &Vec<ExprAst>, floats: &Vec<FloatLiteral>) -> (r:
    Result<(), CompileError>)
    ensures
        match lower_call(name@, exprs_model(args@), floats_model(floats@)) {
            Ok(code) => r is Ok && code_model(final(out)@) == code_model(old(out)@) + code,
            Err(e) => r == Err::<(), CompileError>(e),
        },
    decreases args, 1int,
{
    if args.len() > 2147483647 {
        return Err(CompileError::TooLarge);
    }
    match emit_all(out, args, floats) {
        Err(e) => Err(e),
        Ok(()) => {
            emit_call(out, name, args.len() as i32);
            proof {
                let code = lower_all(exprs_model(args@), args.len() as int, floats_model(floats@))->Ok_0;
                assert(code_model(out@) =~= code_model(old(out)@) + (code + call_code(
                    name@,
                    args.len() as int,
                )));
            }
            Ok(())
        },
    }
}



fn push_item(out: &mut Vec<Translation>, item: Translation)
    ensures
        translations_model(final(out)@) == translations_model(old(out)@).push(item@),
{
    out.push(item);
    assert(translations_model(out@) =~= translations_model(old(out)@).push(item@));
}

fn push_all(out: &mut Vec<Translation>, code: Vec<Translation>)
    ensures
        translations_model(final(out)@) == translations_model(old(out)@) + translations_model(code@),
{
    let ghost given = code@;
    let mut code = code;
    out.append(&mut code);
    assert(translations_model(out@) =~= translations_model(old(out)@) + translations_model(given));
}

fn push_plain(out: &mut Vec<Translation>, code: &Vec<Instruction>)
    ensures
        translations_model(final(out)@) == translations_model(old(out)@) + plain(code_model(code@)),
{
    let mut i: usize = 0;
    assert(translations_model(out@) =~= translations_model(old(out)@) + plain(code_model(code@)).take(
        0,
    ));
    while i < code.len()
        invariant
            i <= code.len(),
            translations_model(out@) == translations_model(old(out)@) + plain(code_model(code@)).take(
                i as int,
            ),
        decreases code.len() - i,
    {
        push_item(out, Translation::Instruction(code[i].clone()));
        i += 1;
        assert(translations_model(out@) =~= translations_model(old(out)@) + plain(
            code_model(code@),
        ).take(i as int));
    }
    assert(plain(code_model(code@)).take(i as int) =~= plain(code_model(code@)));
}

fn push_new_variables(out: &mut Vec<Translation>, names: &Vec<String>)
    ensures
        translations_model(final(out)@) == translations_model(old(out)@) + new_variables(
            names_model(names@),
        ),
{
    let mut i: usize = 0;
    assert(translations_model(out@) =~= translations_model(old(out)@) + new_variables(
        names_model(names@),
    ).take(0));
    while i < names.len()
        invariant
            i <= names.len(),
            translations_model(out@) == translations_model(old(out)@) + new_variables(
                names_model(names@),
            ).take(i as int),
        decreases names.len() - i,
    {
        push_item(out, Translation::Instruction(Instruction::NewVariable(names[i].clone())));
        i += 1;
        assert(translations_model(out@) =~= translations_model(old(out)@) + new_variables(
            names_model(names@),
        ).take(i as int));
    }
    assert(new_variables(names_model(names@)).take(i as int) =~= new_variables(names_model(names@)));
}

fn push_new_variables_reversed(out: &mut Vec<Translation>, names: &Vec<String>)
    ensures
        translations_model(final(out)@) == translations_model(old(out)@) + new_variables(
            names_model(names@).reverse(),
        ),
{
    let n = names.len();
    let mut i: usize = 0;
    let ghost target = new_variables(names_model(names@).reverse());
    assert(translations_model(out@) =~= translations_model(old(out)@) + target.take(0));
    while i < n
        invariant
            i <= n,
            n == names.len(),
            target == new_variables(names_model(names@).reverse()),
            translations_model(out@) == translations_model(old(out)@) + target.take(i as int),
        decreases n - i,
    {
        push_item(out, Translation::Instruction(Instruction::NewVariable(names[n - 1 - i].clone())));
        i += 1;
        assert(translations_model(out@) =~= translations_model(old(out)@) + target.take(i as int));
    }
    assert(target.take(i as int) =~= target);
}

fn push_deletes(out: &mut Vec<Translation>, names: &Vec<String>)
    ensures
        translations_model(final(out)@) == translations_model(old(out)@) + deletes(
            names_model(names@),
        ),
{
    let mut i: usize = 0;
    assert(translations_model(out@) =~= translations_model(old(out)@) + deletes(
        names_model(names@),
    ).take(0));
    while i < names.len()
        invariant
            i <= names.len(),
            translations_model(out@) == translations_model(old(out)@) + deletes(
                names_model(names@),
            ).take(i as int),
        decreases names.len() - i,
    {
        push_item(out, Translation::Instruction(Instruction::Delete(names[i].clone())));
        i += 1;
        assert(translations_model(out@) =~= translations_model(old(out)@) + deletes(
            names_model(names@),
        ).take(i as int));
    }
    assert(deletes(names_model(names@)).take(i as int) =~= deletes(names_model(names@)));
}

fn is_return(item: &Translation) -> (r: bool)
    ensures
        r == (item@ == TranslationModel::Instruction(InstructionModel::Return)),
{
    match item {
        Translation::Instruction(Instruction::Return) => true,
        _ => false,
    }
}

fn push_with_deletes(out: &mut Vec<Translation>, code: &Vec<Translation>, names: &Vec<String>)
    ensures
        translations_model(final(out)@) == translations_model(old(out)@) + with_deletes(
            translations_model(code@),
            names_model(names@),
            code.len() as int,
        ),
{
    let ghost items = translations_model(code@);
    let ghost nm = names_model(names@);
    let mut i: usize = 0;
    assert(translations_model(out@) =~= translations_model(old(out)@) + with_deletes(items, nm, 0));
    while i < code.len()
        invariant
            i <= code.len(),
            items == translations_model(code@),
            nm == names_model(names@),
            translations_model(out@) == translations_model(old(out)@) + with_deletes(
                items,
                nm,
                i as int,
            ),
        decreases code.len() - i,
    {
        let ghost before = with_deletes(items, nm, i as int);
        if is_return(&code[i]) {
            push_deletes(out, names);
        }
        push_item(out, code[i].clone());
        i += 1;
        assert(translations_model(out@) =~= translations_model(old(out)@) + with_deletes(
            items,
            nm,
            i as int,
        ));
    }
}

fn append_names(out: &mut Vec<String>, names: &Vec<String>)
    ensures
        names_model(final(out)@) == names_model(old(out)@) + names_model(names@),
{
    let mut i: usize = 0;
    assert(names_model(out@) =~= names_model(old(out)@) + names_model(names@).take(0));
    while i < names.len()
        invariant
            i <= names.len(),
            names_model(out@) == names_model(old(out)@) + names_model(names@).take(i as int),
        decreases names.len() - i,
    {
        let ghost before = out@;
        let name = names[i].clone();
        out.push(name);
        i += 1;
        assert(out@ == before.push(name));
        assert(names_model(before.push(name)) =~= names_model(before).push(name@));
        assert(names_model(names@).take(i as int) =~= names_model(names@).take(i - 1).push(name@));
        assert(names_model(out@) =~= names_model(old(out)@) + names_model(names@).take(i as int));
    }
    assert(names_model(names@).take(i as int) =~= names_model(names@));
}

fn make_creator(name: &str, members: &Vec<String>) -> (r: ObjectCreator)
    ensures
        r@ == (CreatorModel { name: name@, members: names_model(members@) }),
{
    let mut creator = ObjectCreator::new(name.to_string());
    let mut i: usize = 0;
    assert(creator@.members =~= names_model(members@).take(0));
    while i < members.len()
        invariant
            i <= members.len(),
            creator@.name == name@,
            creator@.members == names_model(members@).take(i as int),
        decreases members.len() - i,
    {
        creator.add_member(members[i].clone());
        i += 1;
        assert(creator@.members =~= names_model(members@).take(i as int));
    }
    assert(names_model(members@).take(i as int) =~= names_model(members@));
    creator
}

fn arity_text(n: usize) -> (r: String)
    ensures
        r@ == arity_message(n as int),
{
    let mut text = "Error: Expected ".to_string();
    let digits = unsigned_text(n as u64);
    text.append(digits.as_str());
    text.append(" arguments");
    text
}

fn push_arity_guard(out: &mut Vec<Translation>, n: usize)
    requires
        n <= i32::MAX,
    ensures
        translations_model(final(out)@) == translations_model(old(out)@) + arity_guard(n as int),
{
    push_item(out, Translation::Instruction(Instruction::Push(ValueType::Int(IntValue::Int32(n as i32)))));
    push_item(out, Translation::Instruction(Instruction::Eq));
    push_item(
        out,
        Translation::Instruction(Instruction::Push(ValueType::String(StringValue::new(arity_text(n))))),
    );
    push_item(out, Translation::Instruction(Instruction::Push(ValueType::Int(IntValue::Int32(2)))));
    push_item(out, Translation::Instruction(Instruction::Call("assert".to_string())));
    assert(translations_model(out@) =~= translations_model(old(out)@) + arity_guard(n as int));
}

/// The compiler: the instructions compiled so far, the functions defined with the label of
/// their entry, the address of each function once the labels are resolved, the number of
/// labels handed out, and the classes declared.
pub struct InstructionCompiler {
    pub instructions: Vec<Instruction>,
    pub functions_label_locations: Vec<(String, usize)>,
    pub functions_locations: StringHashMap<usize>,
    pub label_count: usize,
    pub class_creators: StringHashMap<ObjectCreator>,
}

impl InstructionCompiler {
    /// What the compiler has gathered so far.
    pub open spec fn state(&self) -> CompilerModel {
        CompilerModel {
            label_count: self.label_count as int,
            functions: functions_model(self.functions_label_locations@),
            classes: classes_model(self.class_creators@),
        }
    }

    /// A compiler that has compiled nothing yet.
    pub fn new() -> (r: Self)
        ensures
            r.state() == (CompilerModel {
                label_count: 0,
                functions: Seq::empty(),
                classes: Map::empty(),
            }),
            r.instructions@ == Seq::<Instruction>::empty(),
            r.functions_locations@ == Map::<Seq<char>, usize>::empty(),
    {
        let r = Self {
            instructions: Vec::new(),
            functions_label_locations: Vec::new(),
            functions_locations: StringHashMap::new(),
            label_count: 0,
            class_creators: StringHashMap::new(),
        };
        assert(r.state().functions =~= Seq::empty());
        assert(r.state().classes =~= Map::empty());
        r
    }

    /// The code that leaves the value of `expr` on the stack.
    pub fn compile_expr_ast(&self, expr: &ExprAst, floats: &Vec<FloatLiteral>) -> (r: Result<
        Vec<Instruction>,
        CompileError,
    >)
        ensures
            match lower_expr(expr@, floats_model(floats@)) {
                Ok(code) => r matches Ok(v) && code_model(v@) == code,
                Err(e) => r matches Err(x) && x == e,
            },
    {
        let mut out: Vec<Instruction> = Vec::new();
        assert(code_model(out@) =~= Seq::empty());
        match emit_expr(&mut out, expr, floats) {
            Ok(()) => {
                assert(code_model(out@) =~= lower_expr(expr@, floats_model(floats@))->Ok_0);
                Ok(out)
            },
            Err(e) => Err(e),
        }
    }

    fn defines_function(&self, name: &str) -> (r: bool)
        ensures
            r == has_function(self.state(), name@),
    {
        let mut i: usize = 0;
        let ghost fs = functions_model(self.functions_label_locations@);
        while i < self.functions_label_locations.len()
            invariant
                i <= self.functions_label_locations.len(),
                fs == functions_model(self.functions_label_locations@),
                function_index(fs, name@, 0) == function_index(fs, name@, i as int),
            decreases self.functions_label_locations.len() - i,
        {
            if text_eq(self.functions_label_locations[i].0.as_str(), name) {
                return true;
            }
            i += 1;
        }
        false
    }
}



/// Appending an item after a run is appending the run with the item at its end.
pub proof fn lemma_then_item(start: Seq<TranslationModel>, a: Seq<TranslationModel>, x: TranslationModel)
    ensures
        (start + a).push(x) == start + (a + seq![x]),
        start.push(x) == start + seq![x],
{
    assert((start + a).push(x) =~= start + (a + seq![x]));
    assert(start.push(x) =~= start + seq![x]);
}

/// Appending two runs one after the other is appending them joined.
pub proof fn lemma_then_run(start: Seq<TranslationModel>, a: Seq<TranslationModel>, b: Seq<TranslationModel>)
    ensures
        (start + a) + b == start + (a + b),
{
    assert((start + a) + b =~= start + (a + b));
}

/// The code of a test, a jump, a body, a jump and a label, appended piece by piece.
pub proof fn lemma_guarded_code(
    start: Seq<TranslationModel>,
    before: Seq<TranslationModel>,
    test: Seq<TranslationModel>,
    over: TranslationModel,
    inner: Seq<TranslationModel>,
    out: TranslationModel,
    label: TranslationModel,
)
    ensures
        (((start + before) + test).push(over) + inner).push(out).push(label) == start + (before + test
            + seq![over] + inner + seq![out, label]),
        ((start + test).push(over) + inner).push(out).push(label) == start + (test + seq![over] + inner
            + seq![out, label]),
{
    assert((((start + before) + test).push(over) + inner).push(out).push(label) =~= start + (before
        + test + seq![over] + inner + seq![out, label]));
    assert(((start + test).push(over) + inner).push(out).push(label) =~= start + (test + seq![over]
        + inner + seq![out, label]));
}

/// The code of a loop, appended piece by piece.
pub proof fn lemma_loop_code(
    start: Seq<TranslationModel>,
    top: TranslationModel,
    test: Seq<TranslationModel>,
    over: TranslationModel,
    inner: Seq<TranslationModel>,
    back: TranslationModel,
    label: TranslationModel,
)
    ensures
        ((start.push(top) + test).push(over) + inner).push(back).push(label) == start + (seq![top]
            + test + seq![over] + inner + seq![back, label]),
{
    assert(((start.push(top) + test).push(over) + inner).push(back).push(label) =~= start + (seq![
        top,
    ] + test + seq![over] + inner + seq![back, label]));
}

/// The code of a function definition, appended piece by piece.
pub proof fn lemma_function_code(
    start: Seq<TranslationModel>,
    over: TranslationModel,
    entry: TranslationModel,
    check: Seq<TranslationModel>,
    parameters: Seq<TranslationModel>,
    inner: Seq<TranslationModel>,
    label: TranslationModel,
)
    ensures
        (start.push(over).push(entry) + check + parameters + inner).push(label) == start + (seq![
            over,
            entry,
        ] + check + parameters + inner + seq![label]),
{
    assert((start.push(over).push(entry) + check + parameters + inner).push(label) =~= start + (seq![
        over,
        entry,
    ] + check + parameters + inner + seq![label]));
}

/// The end of the code of a conditional, appended piece by piece.
pub proof fn lemma_conditional_code(
    start: Seq<TranslationModel>,
    first: Seq<TranslationModel>,
    branches: Seq<TranslationModel>,
    last: Seq<TranslationModel>,
    label: TranslationModel,
)
    ensures
        (((start + first) + branches) + last).push(label) == start + (first + branches + last + seq![
            label,
        ]),
        ((start + first) + branches).push(label) == start + (first + branches + seq![label]),
{
    assert((((start + first) + branches) + last).push(label) =~= start + (first + branches + last
        + seq![label]));
    assert(((start + first) + branches).push(label) =~= start + (first + branches + seq![label]));
}

/// Where lowering the first `n` statements fails, lowering more of them fails in the same way.
pub proof fn lemma_lower_statements_fails(
    c: CompilerModel,
    statements: Seq<StatementModel>,
    n: int,
    m: int,
    scope: ScopeModel,
    floats: Seq<(Seq<char>, FloatModel)>,
)
    requires
        0 < n <= m <= statements.len(),
        lower_statements(c, statements, n, scope, floats) is Err,
    ensures
        lower_statements(c, statements, m, scope, floats) == lower_statements(
            c,
            statements,
            n,
            scope,
            floats,
        ),
    decreases m - n,
{
    if n < m {
        lemma_lower_statements_fails(c, statements, n, m - 1, scope, floats);
    }
}

/// Where lowering the first `n` branches fails, lowering more of them fails in the same way.
pub proof fn lemma_lower_branches_fails(
    c: CompilerModel,
    branches: Seq<(ExprModel, Seq<StatementModel>)>,
    n: int,
    m: int,
    end: usize,
    scope: ScopeModel,
    floats: Seq<(Seq<char>, FloatModel)>,
)
    requires
        0 < n <= m <= branches.len(),
        lower_branches(c, branches, n, end, scope, floats) is Err,
    ensures
        lower_branches(c, branches, m, end, scope, floats) == lower_branches(
            c,
            branches,
            n,
            end,
            scope,
            floats,
        ),
    decreases m - n,
{
    if n < m {
        lemma_lower_branches_fails(c, branches, n, m - 1, end, scope, floats);
    }
}

fn compile_assignment(
    c: Ghost<CompilerModel>,
    name: &String,
    value: &ExprAst,
    floats: &Vec<FloatLiteral>,
    out: &mut Vec<Translation>,
    names: &mut Vec<String>,
) -> (r: Result<(), CompileError>)
    ensures
        match lower_assignment(c@, name@, value@, floats_model(floats@)) {
            Ok(l) => {
                &&& r is Ok
                &&& l.compiler == c@
                &&& translations_model(final(out)@) == translations_model(old(out)@) + l.code
                &&& names_model(final(names)@) == names_model(old(names)@) + l.names
            },
            Err(e) => r == Err::<(), CompileError>(e),
        },
{
    let ghost fm = floats_model(floats@);
    let ghost start = translations_model(out@);
    let ghost given = names_model(names@);
    let mut code: Vec<Instruction> = Vec::new();
    assert(code_model(code@) =~= Seq::empty());
    match emit_expr(&mut code, value, floats) {
        Err(e) => {
            return Err(e);
        },
        Ok(()) => {},
    }
    push_plain(out, &code);
    push_item(out, Translation::Instruction(Instruction::NewVariable(name.clone())));
    names.push(name.clone());
    proof {
        assert(code_model(code@) =~= lower_expr(value@, fm)->Ok_0);
        lemma_then_item(
            start,
            plain(code_model(code@)),
            TranslationModel::Instruction(InstructionModel::NewVariable(name@)),
        );
        assert(names_model(names@) =~= given + seq![name@]);
    }
    Ok(())
}

fn compile_multi_assignment(
    c: Ghost<CompilerModel>,
    variables: &Vec<String>,
    value: &ExprAst,
    floats: &Vec<FloatLiteral>,
    out: &mut Vec<Translation>,
    names: &mut Vec<String>,
) -> (r: Result<(), CompileError>)
    ensures
        match lower_multi_assignment(c@, names_model(variables@), value@, floats_model(floats@)) {
            Ok(l) => {
                &&& r is Ok
                &&& l.compiler == c@
                &&& translations_model(final(out)@) == translations_model(old(out)@) + l.code
                &&& names_model(final(names)@) == names_model(old(names)@) + l.names
            },
            Err(e) => r == Err::<(), CompileError>(e),
        },
{
    let ghost fm = floats_model(floats@);
    let ghost start = translations_model(out@);
    let mut code: Vec<Instruction> = Vec::new();
    assert(code_model(code@) =~= Seq::empty());
    match emit_expr(&mut code, value, floats) {
        Err(e) => {
            return Err(e);
        },
        Ok(()) => {},
    }
    push_plain(out, &code);
    push_new_variables(out, variables);
    append_names(names, variables);
    proof {
        assert(code_model(code@) =~= lower_expr(value@, fm)->Ok_0);
        lemma_then_run(start, plain(code_model(code@)), new_variables(names_model(variables@)));
    }
    Ok(())
}

fn compile_reassignment(
    c: Ghost<CompilerModel>,
    name: &String,
    value: &ExprAst,
    floats: &Vec<FloatLiteral>,
    out: &mut Vec<Translation>,
    names: &mut Vec<String>,
) -> (r: Result<(), CompileError>)
    ensures
        match lower_reassignment(c@, name@, value@, floats_model(floats@)) {
            Ok(l) => {
                &&& r is Ok
                &&& l.compiler == c@
                &&& translations_model(final(out)@) == translations_model(old(out)@) + l.code
                &&& names_model(final(names)@) == names_model(old(names)@) + l.names
            },
            Err(e) => r == Err::<(), CompileError>(e),
        },
{
    let ghost fm = floats_model(floats@);
    let ghost start = translations_model(out@);
    let ghost given = names_model(names@);
    let mut code: Vec<Instruction> = Vec::new();
    assert(code_model(code@) =~= Seq::empty());
    match emit_expr(&mut code, value, floats) {
        Err(e) => {
            return Err(e);
        },
        Ok(()) => {},
    }
    push_plain(out, &code);
    push_item(out, Translation::Instruction(Instruction::Store(name.clone())));
    proof {
        assert(code_model(code@) =~= lower_expr(value@, fm)->Ok_0);
        lemma_then_item(
            start,
            plain(code_model(code@)),
            TranslationModel::Instruction(InstructionModel::Store(name@)),
        );
        assert(given + Seq::<Seq<char>>::empty() =~= given);
    }
    Ok(())
}

fn compile_call_statement(
    c: Ghost<CompilerModel>,
    name: &String,
    args: &Vec<ExprAst>,
    floats: &Vec<FloatLiteral>,
    out: &mut Vec<Translation>,
    names: &mut Vec<String>,
) -> (r: Result<(), CompileError>)
    ensures
        match lower_call_statement(c@, name@, exprs_model(args@), floats_model(floats@)) {
            Ok(l) => {
                &&& r is Ok
                &&& l.compiler == c@
                &&& translations_model(final(out)@) == translations_model(old(out)@) + l.code
                &&& names_model(final(names)@) == names_model(old(names)@) + l.names
            },
            Err(e) => r == Err::<(), CompileError>(e),
        },
{
    let ghost fm = floats_model(floats@);
    let ghost given = names_model(names@);
    let mut code: Vec<Instruction> = Vec::new();
    assert(code_model(code@) =~= Seq::empty());
    match emit_call_of(&mut code, name.as_str(), args, floats) {
        Err(e) => {
            return Err(e);
        },
        Ok(()) => {},
    }
    push_plain(out, &code);
    proof {
        assert(code_model(code@) =~= lower_call(name@, exprs_model(args@), fm)->Ok_0);
        assert(given + Seq::<Seq<char>>::empty() =~= given);
    }
    Ok(())
}

/// The names of `a` and then those of `b`.
fn joined_names(a: &Vec<String>, b: &Vec<String>) -> (r: Vec<String>)
    ensures
        names_model(r@) == names_model(a@) + names_model(b@),
{
    let mut out: Vec<String> = Vec::new();
    assert(names_model(out@) =~= Seq::empty());
    append_names(&mut out, a);
    append_names(&mut out, b);
    assert(names_model(out@) =~= names_model(a@) + names_model(b@));
    out
}

impl Scope {
    /// The scope of the statements of a program: no loop and no function around them.
    pub fn outermost() -> (r: Scope)
        ensures
            r@ == outermost(),
    {
        let r = Scope {
            start: None,
            end: None,
            in_function: false,
            loop_live: Vec::new(),
            function_live: Vec::new(),
        };
        assert(names_model(r.loop_live@) =~= Seq::empty());
        assert(names_model(r.function_live@) =~= Seq::empty());
        r
    }

    /// The scope of a statement that stands after statements of its block that have
    /// introduced `names`.
    pub fn entered(&self, names: &Vec<String>) -> (r: Scope)
        ensures
            r@ == entered(self@, names_model(names@)),
    {
        Scope {
            start: self.start,
            end: self.end,
            in_function: self.in_function,
            loop_live: joined_names(&self.loop_live, names),
            function_live: joined_names(&self.function_live, names),
        }
    }

    /// The scope of the body of a loop with the labels `start` and `end` that stands in
    /// this scope.
    pub fn in_loop(&self, start: usize, end: usize) -> (r: Scope)
        ensures
            r@ == in_loop(self@, start, end),
    {
        let none: Vec<String> = Vec::new();
        assert(names_model(none@) =~= Seq::empty());
        let live = joined_names(&self.function_live, &none);
        assert(names_model(live@) =~= names_model(self.function_live@));
        let r = Scope {
            start: Some(start),
            end: Some(end),
            in_function: self.in_function,
            loop_live: none,
            function_live: live,
        };
        r
    }

    /// The scope of the body of a function.
    pub fn in_function() -> (r: Scope)
        ensures
            r@ == in_function(),
    {
        let r = Scope {
            start: None,
            end: None,
            in_function: true,
            loop_live: Vec::new(),
            function_live: Vec::new(),
        };
        assert(names_model(r.loop_live@) =~= Seq::empty());
        assert(names_model(r.function_live@) =~= Seq::empty());
        r
    }
}

fn compile_jump(
    c: Ghost<CompilerModel>,
    target: Option<usize>,
    live: &Vec<String>,
    error: CompileError,
    out: &mut Vec<Translation>,
    names: &mut Vec<String>,
) -> (r: Result<(), CompileError>)
    ensures
        match lower_jump(c@, target, names_model(live@), error) {
            Ok(l) => {
                &&& r is Ok
                &&& l.compiler == c@
                &&& translations_model(final(out)@) == translations_model(old(out)@) + l.code
                &&& names_model(final(names)@) == names_model(old(names)@) + l.names
            },
            Err(e) => r == Err::<(), CompileError>(e),
        },
{
    let ghost start = translations_model(out@);
    let ghost given = names_model(names@);
    match target {
        Some(label) => {
            push_deletes(out, live);
            push_item(out, Translation::Jump(JumpKind::Always, label));
            proof {
                lemma_then_item(
                    start,
                    deletes(names_model(live@)),
                    TranslationModel::Jump(JumpKind::Always, label),
                );
                assert(given + Seq::<Seq<char>>::empty() =~= given);
            }
            Ok(())
        },
        None => Err(error),
    }
}

fn compile_return(
    c: Ghost<CompilerModel>,
    values: &Vec<ExprAst>,
    scope: &Scope,
    floats: &Vec<FloatLiteral>,
    out: &mut Vec<Translation>,
    names: &mut Vec<String>,
) -> (r: Result<(), CompileError>)
    ensures
        match lower_return(c@, exprs_model(values@), scope@, floats_model(floats@)) {
            Ok(l) => {
                &&& r is Ok
                &&& l.compiler == c@
                &&& translations_model(final(out)@) == translations_model(old(out)@) + l.code
                &&& names_model(final(names)@) == names_model(old(names)@) + l.names
            },
            Err(e) => r == Err::<(), CompileError>(e),
        },
{
    let ghost fm = floats_model(floats@);
    let ghost start = translations_model(out@);
    let ghost given = names_model(names@);
    if !scope.in_function {
        return Err(CompileError::ReturnOutsideFunction);
    }
    let mut code: Vec<Instruction> = Vec::new();
    assert(code_model(code@) =~= Seq::empty());
    match emit_all(&mut code, values, floats) {
        Err(e) => {
            return Err(e);
        },
        Ok(()) => {},
    }
    push_plain(out, &code);
    push_deletes(out, &scope.function_live);
    push_item(out, Translation::Instruction(Instruction::Return));
    proof {
        let live = names_model(scope.function_live@);
        assert(code_model(code@) =~= lower_all(exprs_model(values@), values.len() as int, fm)->Ok_0);
        lemma_then_run(start, plain(code_model(code@)), deletes(live));
        lemma_then_item(
            start,
            plain(code_model(code@)) + deletes(live),
            TranslationModel::Instruction(InstructionModel::Return),
        );
        assert(given + Seq::<Seq<char>>::empty() =~= given);
    }
    Ok(())
}

impl InstructionCompiler {
    /// Appends the code of `s` to `out`, and to `names` the variables that it introduces.
    pub fn compile_statement(
        &mut self,
        s: &Statement,
        scope: &Scope,
        floats: &Vec<FloatLiteral>,
        out: &mut Vec<Translation>,
        names: &mut Vec<String>,
    ) -> (r: Result<(), CompileError>)
        ensures
            match lower_statement(old(self).state(), s@, scope@, floats_model(floats@)) {
                Ok(l) => {
                    &&& r is Ok
                    &&& final(self).state() == l.compiler
                    &&& translations_model(final(out)@) == translations_model(old(out)@) + l.code
                    &&& names_model(final(names)@) == names_model(old(names)@) + l.names
                },
                Err(e) => r == Err::<(), CompileError>(e),
            },
        decreases s, 1int,
    {
        let ghost fm = floats_model(floats@);
        let ghost start = translations_model(out@);
        let ghost given = names_model(names@);
        let ghost c = self.state();
        match s {
            Statement::VariableAssignment { name, value } => compile_assignment(
                Ghost(c),
                name,
                value,
                floats,
                out,
                names,
            ),
            Statement::VariableMultiAssignment { variables, value } => compile_multi_assignment(
                Ghost(c),
                variables,
                value,
                floats,
                out,
                names,
            ),
            Statement::VariableReassignment { name, value } => compile_reassignment(
                Ghost(c),
                name,
                value,
                floats,
                out,
                names,
            ),
            Statement::FunctionCall { name, args } => compile_call_statement(
                Ghost(c),
                name,
                args,
                floats,
                out,
                names,
            ),
            Statement::Conditional { .. } => self.compile_conditional(s, scope, floats, out, names),
            Statement::WhileLoop { .. } => self.compile_while(s, scope, floats, out, names),
            Statement::Continue => compile_jump(
                Ghost(c),
                scope.start,
                &scope.loop_live,
                CompileError::ContinueOutsideLoop,
                out,
                names,
            ),
            Statement::Break => compile_jump(
                Ghost(c),
                scope.end,
                &scope.loop_live,
                CompileError::BreakOutsideLoop,
                out,
                names,
            ),
            Statement::FunctionDefinition { .. } => self.compile_function(s, floats, out, names),
            Statement::Return { returns: values } => compile_return(
                Ghost(c),
                values,
                scope,
                floats,
                out,
                names,
            ),
            Statement::ClassDeclaration { class_name, members } => self.compile_class(
                class_name,
                members,
                out,
                names,
            ),
            Statement::ForLoop { .. } => Err(CompileError::Unsupported),
        }
    }

    /// Registers the class `class_name` with the members `members`.
    pub fn compile_class(
        &mut self,
        class_name: &String,
        members: &Vec<String>,
        out: &mut Vec<Translation>,
        names: &mut Vec<String>,
    ) -> (r: Result<(), CompileError>)
        ensures
            match lower_class(old(self).state(), class_name@, names_model(members@)) {
                Ok(l) => {
                    &&& r is Ok
                    &&& final(self).state() == l.compiler
                    &&& translations_model(final(out)@) == translations_model(old(out)@) + l.code
                    &&& names_model(final(names)@) == names_model(old(names)@) + l.names
                },
                Err(e) => r == Err::<(), CompileError>(e),
            },
    {
        let ghost start = translations_model(out@);
        let ghost given = names_model(names@);
        let ghost c = self.state();
        if self.defines_function(class_name.as_str()) {
            return Err(CompileError::ClassNamedAsFunction);
        }
        if self.class_creators.contains_key(class_name.as_str()) {
            return Err(CompileError::DuplicateClass);
        }
        let creator = make_creator(class_name.as_str(), members);
        self.class_creators.insert(class_name.clone(), creator);
        proof {
            assert(self.state().classes =~= c.classes.insert(
                class_name@,
                CreatorModel { name: class_name@, members: names_model(members@) },
            ));
            assert(start + Seq::<TranslationModel>::empty() =~= start);
            assert(given + Seq::<Seq<char>>::empty() =~= given);
        }
        Ok(())
    }

    /// Appends the code of a conditional.
    pub fn compile_conditional(
        &mut self,
        s: &Statement,
        scope: &Scope,
        floats: &Vec<FloatLiteral>,
        out: &mut Vec<Translation>,
        names: &mut Vec<String>,
    ) -> (r: Result<(), CompileError>)
        ensures
            match lower_conditional(old(self).state(), s@, scope@, floats_model(floats@)) {
                Ok(l) => {
                    &&& r is Ok
                    &&& final(self).state() == l.compiler
                    &&& translations_model(final(out)@) == translations_model(old(out)@) + l.code
                    &&& names_model(final(names)@) == names_model(old(names)@) + l.names
                },
                Err(e) => r == Err::<(), CompileError>(e),
            },
        decreases s, 0int,
    {
        let ghost fm = floats_model(floats@);
        let ghost start = translations_model(out@);
        let ghost given = names_model(names@);
        let ghost c = self.state();
        match s {
            Statement::Conditional { condition, body, else_if_conditions, else_body } => {
                let mut code: Vec<Instruction> = Vec::new();
                assert(code_model(code@) =~= Seq::empty());
                match emit_expr(&mut code, condition, floats) {
                    Err(e) => {
                        return Err(e);
                    },
                    Ok(()) => {},
                }
                assert(code_model(code@) =~= lower_expr(condition@, fm)->Ok_0);
                if self.label_count > usize::MAX - 2 {
                    return Err(CompileError::TooLarge);
                }
                let end = self.label_count;
                let body_end = self.label_count + 1;
                self.label_count = self.label_count + 2;
                let inner = match self.compile_block(body, scope, floats) {
                    Err(e) => {
                        return Err(e);
                    },
                    Ok(inner) => inner,
                };
                let ghost inner_model = translations_model(inner@);
                push_plain(out, &code);
                push_item(out, Translation::Jump(JumpKind::IfFalse, body_end));
                push_all(out, inner);
                push_item(out, Translation::Jump(JumpKind::Always, end));
                push_item(out, Translation::Label(body_end));
                let ghost first = plain(code_model(code@)) + seq![
                    TranslationModel::Jump(JumpKind::IfFalse, body_end),
                ] + inner_model + seq![
                    TranslationModel::Jump(JumpKind::Always, end),
                    TranslationModel::Label(body_end),
                ];
                proof {
                    lemma_guarded_code(
                        start,
                        Seq::empty(),
                        plain(code_model(code@)),
                        TranslationModel::Jump(JumpKind::IfFalse, body_end),
                        inner_model,
                        TranslationModel::Jump(JumpKind::Always, end),
                        TranslationModel::Label(body_end),
                    );
                }
                assert(translations_model(out@) == start + first);
                let ghost branches_code = lower_branches(
                    self.state(),
                    branches_model(else_if_conditions@),
                    else_if_conditions.len() as int,
                    end,
                    scope@,
                    fm,
                );
                match self.compile_branches(else_if_conditions, end, scope, floats, out) {
                    Err(e) => {
                        return Err(e);
                    },
                    Ok(()) => {},
                }
                let ghost branches_model = branches_code->Ok_0.1;
                assert(translations_model(out@) == (start + first) + branches_model);
                match else_body {
                    None => {
                        push_item(out, Translation::Label(end));
                        proof {
                            lemma_conditional_code(
                                start,
                                first,
                                branches_model,
                                Seq::empty(),
                                TranslationModel::Label(end),
                            );
                            assert(given + Seq::<Seq<char>>::empty() =~= given);
                        }
                        Ok(())
                    },
                    Some(b) => {
                        let last = match self.compile_block(b, scope, floats) {
                            Err(e) => {
                                return Err(e);
                            },
                            Ok(last) => last,
                        };
                        let ghost last_model = translations_model(last@);
                        push_all(out, last);
                        push_item(out, Translation::Label(end));
                        proof {
                            lemma_conditional_code(
                                start,
                                first,
                                branches_model,
                                last_model,
                                TranslationModel::Label(end),
                            );
                            assert(given + Seq::<Seq<char>>::empty() =~= given);
                        }
                        Ok(())
                    },
                }
            },
            _ => Err(CompileError::Unsupported),
        }
    }

    /// Appends the code of a loop.
    pub fn compile_while(
        &mut self,
        s: &Statement,
        scope: &Scope,
        floats: &Vec<FloatLiteral>,
        out: &mut Vec<Translation>,
        names: &mut Vec<String>,
    ) -> (r: Result<(), CompileError>)
        ensures
            match lower_while(old(self).state(), s@, scope@, floats_model(floats@)) {
                Ok(l) => {
                    &&& r is Ok
                    &&& final(self).state() == l.compiler
                    &&& translations_model(final(out)@) == translations_model(old(out)@) + l.code
                    &&& names_model(final(names)@) == names_model(old(names)@) + l.names
                },
                Err(e) => r == Err::<(), CompileError>(e),
            },
        decreases s, 0int,
    {
        let ghost fm = floats_model(floats@);
        let ghost start = translations_model(out@);
        let ghost given = names_model(names@);
        let ghost c = self.state();
        match s {
            Statement::WhileLoop { condition, body } => {
                if self.label_count > usize::MAX - 2 {
                    return Err(CompileError::TooLarge);
                }
                let start_label = self.label_count;
                let end_label = self.label_count + 1;
                let mut code: Vec<Instruction> = Vec::new();
                assert(code_model(code@) =~= Seq::empty());
                match emit_expr(&mut code, condition, floats) {
                    Err(e) => {
                        return Err(e);
                    },
                    Ok(()) => {},
                }
                assert(code_model(code@) =~= lower_expr(condition@, fm)->Ok_0);
                self.label_count = self.label_count + 2;
                let inner_scope = scope.in_loop(start_label, end_label);
                let inner = match self.compile_block(body, &inner_scope, floats) {
                    Err(e) => {
                        return Err(e);
                    },
                    Ok(inner) => inner,
                };
                let ghost inner_model = translations_model(inner@);
                push_item(out, Translation::Label(start_label));
                push_plain(out, &code);
                push_item(out, Translation::Jump(JumpKind::IfFalse, end_label));
                push_all(out, inner);
                push_item(out, Translation::Jump(JumpKind::Always, start_label));
                push_item(out, Translation::Label(end_label));
                proof {
                    lemma_loop_code(
                        start,
                        TranslationModel::Label(start_label),
                        plain(code_model(code@)),
                        TranslationModel::Jump(JumpKind::IfFalse, end_label),
                        inner_model,
                        TranslationModel::Jump(JumpKind::Always, start_label),
                        TranslationModel::Label(end_label),
                    );
                    assert(given + Seq::<Seq<char>>::empty() =~= given);
                }
                Ok(())
            },
            _ => Err(CompileError::Unsupported),
        }
    }

    /// Appends the code of a function definition, and registers the function.
    pub fn compile_function(
        &mut self,
        s: &Statement,
        floats: &Vec<FloatLiteral>,
        out: &mut Vec<Translation>,
        names: &mut Vec<String>,
    ) -> (r: Result<(), CompileError>)
        ensures
            match lower_function(old(self).state(), s@, floats_model(floats@)) {
                Ok(l) => {
                    &&& r is Ok
                    &&& final(self).state() == l.compiler
                    &&& translations_model(final(out)@) == translations_model(old(out)@) + l.code
                    &&& names_model(final(names)@) == names_model(old(names)@) + l.names
                },
                Err(e) => r == Err::<(), CompileError>(e),
            },
        decreases s, 0int,
    {
        let ghost fm = floats_model(floats@);
        let ghost start = translations_model(out@);
        let ghost given = names_model(names@);
        let ghost c = self.state();
        match s {
            Statement::FunctionDefinition { name, args, body } => {
                if self.defines_function(name.as_str()) {
                    return Err(CompileError::DuplicateFunction);
                }
                if self.class_creators.contains_key(name.as_str()) {
                    return Err(CompileError::FunctionNamedAsClass);
                }
                if args.len() > 2147483647 || self.label_count > usize::MAX - 2 {
                    return Err(CompileError::TooLarge);
                }
                let end = self.label_count;
                let entry = self.label_count + 1;
                self.label_count = self.label_count + 2;
                self.functions_label_locations.push((name.clone(), entry));
                assert(self.state().functions =~= c.functions.push((name@, entry)));
                let inner_scope = Scope::in_function();
                let inner = match self.compile_block(body, &inner_scope, floats) {
                    Err(e) => {
                        return Err(e);
                    },
                    Ok(inner) => inner,
                };
                push_item(out, Translation::Jump(JumpKind::Always, end));
                push_item(out, Translation::Label(entry));
                push_arity_guard(out, args.len());
                push_new_variables_reversed(out, args);
                push_with_deletes(out, &inner, args);
                push_item(out, Translation::Label(end));
                proof {
                    lemma_function_code(
                        start,
                        TranslationModel::Jump(JumpKind::Always, end),
                        TranslationModel::Label(entry),
                        arity_guard(args.len() as int),
                        new_variables(names_model(args@).reverse()),
                        with_deletes(
                            translations_model(inner@),
                            names_model(args@),
                            inner.len() as int,
                        ),
                        TranslationModel::Label(end),
                    );
                    assert(given + Seq::<Seq<char>>::empty() =~= given);
                }
                Ok(())
            },
            _ => Err(CompileError::Unsupported),
        }
    }

    /// Appends the code of each `else if` of a conditional whose end label is `end`.
    pub fn compile_branches(
        &mut self,
        branches: &Vec<(ExprAst, Vec<Statement>)>,
        end: usize,
        scope: &Scope,
        floats: &Vec<FloatLiteral>,
        out: &mut Vec<Translation>,
    ) -> (r: Result<(), CompileError>)
        ensures
            match lower_branches(
                old(self).state(),
                branches_model(branches@),
                branches.len() as int,
                end,
                scope@,
                floats_model(floats@),
            ) {
                Ok((c, code)) => {
                    &&& r is Ok
                    &&& final(self).state() == c
                    &&& translations_model(final(out)@) == translations_model(old(out)@) + code
                },
                Err(e) => r == Err::<(), CompileError>(e),
            },
        decreases branches, 0int,
    {
        let ghost fm = floats_model(floats@);
        let ghost start = translations_model(out@);
        let ghost c = self.state();
        let ghost bm = branches_model(branches@);
        let mut i: usize = 0;
        assert(translations_model(out@) =~= start + Seq::<TranslationModel>::empty());
        while i < branches.len()
            invariant
                i <= branches.len(),
                c == old(self).state(),
                start == translations_model(old(out)@),
                fm == floats_model(floats@),
                bm == branches_model(branches@),
                lower_branches(c, bm, i as int, end, scope@, fm) matches Ok((c1, code))
                    && self.state() == c1 && translations_model(out@) == start + code,
            decreases branches.len() - i,
        {
            let ghost before = lower_branches(c, bm, i as int, end, scope@, fm)->Ok_0.1;
            let mut code: Vec<Instruction> = Vec::new();
            assert(code_model(code@) =~= Seq::empty());
            match emit_expr(&mut code, &branches[i].0, floats) {
                Err(e) => {
                    proof {
                        lemma_lower_branches_fails(c, bm, i as int + 1, branches.len() as int, end, scope@, fm);
                    }
                    return Err(e);
                },
                Ok(()) => {},
            }
            assert(code_model(code@) =~= lower_expr(bm[i as int].0, fm)->Ok_0);
            if self.label_count > usize::MAX - 1 {
                proof {
                    lemma_lower_branches_fails(c, bm, i as int + 1, branches.len() as int, end, scope@, fm);
                }
                return Err(CompileError::TooLarge);
            }
            let body_end = self.label_count;
            self.label_count = self.label_count + 1;
            let inner = match self.compile_block(&branches[i].1, scope, floats) {
                Err(e) => {
                    proof {
                        lemma_lower_branches_fails(c, bm, i as int + 1, branches.len() as int, end, scope@, fm);
                    }
                    return Err(e);
                },
                Ok(inner) => inner,
            };
            let ghost inner_model = translations_model(inner@);
            push_plain(out, &code);
            push_item(out, Translation::Jump(JumpKind::IfFalse, body_end));
            push_all(out, inner);
            push_item(out, Translation::Jump(JumpKind::Always, end));
            push_item(out, Translation::Label(body_end));
            proof {
                lemma_guarded_code(
                    start,
                    before,
                    plain(code_model(code@)),
                    TranslationModel::Jump(JumpKind::IfFalse, body_end),
                    inner_model,
                    TranslationModel::Jump(JumpKind::Always, end),
                    TranslationModel::Label(body_end),
                );
            }
            i += 1;
        }
        Ok(())
    }

    /// The code of a block: that of its statements, and then a `Delete` for each variable
    /// that the statements of the block itself introduce.
    pub fn compile_block(&mut self, statements: &Vec<Statement>, scope: &Scope, floats: &Vec<FloatLiteral>) -> (r:
        Result<Vec<Translation>, CompileError>)
        ensures
            match lower_block(
                old(self).state(),
                block_model(statements@),
                scope@,
                floats_model(floats@),
            ) {
                Ok((c, code)) => r matches Ok(v) && final(self).state() == c && translations_model(v@)
                    == code,
                Err(e) => r matches Err(x) && x == e,
            },
        decreases statements, 0int,
    {
        let ghost fm = floats_model(floats@);
        let ghost c = self.state();
        let ghost sm = block_model(statements@);
        let mut out: Vec<Translation> = Vec::new();
        let mut names: Vec<String> = Vec::new();
        let mut i: usize = 0;
        assert(translations_model(out@) =~= Seq::empty());
        assert(names_model(names@) =~= Seq::empty());
        while i < statements.len()
            invariant
                i <= statements.len(),
                c == old(self).state(),
                fm == floats_model(floats@),
                sm == block_model(statements@),
                lower_statements(c, sm, i as int, scope@, fm) matches Ok(l) && self.state()
                    == l.compiler && translations_model(out@) == l.code && names_model(names@)
                    == l.names,
            decreases statements.len() - i,
        {
            let here = scope.entered(&names);
            match self.compile_statement(&statements[i], &here, floats, &mut out, &mut names) {
                Err(e) => {
                    proof {
                        lemma_lower_statements_fails(c, sm, i as int + 1, statements.len() as int, scope@, fm);
                    }
                    return Err(e);
                },
                Ok(()) => {},
            }
            i += 1;
        }
        push_deletes(&mut out, &names);
        Ok(out)
    }
}

} // verus!
