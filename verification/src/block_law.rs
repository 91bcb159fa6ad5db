//! The variables that a run leaves: those it found and made, less those it deleted; and a
//! block of assignments, compiled and run, leaves none behind.

use crate::builtins::OutcomeModel;
use crate::error::CompileError;
use crate::eval_parser::ExprModel;
use crate::instruction_compiler::deletes;
use crate::instruction_compiler::entered;
use crate::instruction_compiler::lower_block;
use crate::instruction_compiler::lower_statement;
use crate::instruction_compiler::lower_statements;
use crate::instruction_compiler::one;
use crate::instruction_compiler::outermost;
use crate::instruction_compiler::plain;
use crate::instruction_compiler::CompilerModel;
use crate::instruction_compiler::Lowered;
use crate::instruction_compiler::TranslationModel;
use crate::int_value::widened;
use crate::labels::code_count;
use crate::labels::compile_program;
use crate::labels::fresh;
use crate::labels::label_table;
use crate::labels::resolve;
use crate::labels::resolved;
use crate::labels::ProgramModel;
use crate::parser::StatementModel;
use crate::text::parse_i64;
use crate::value::FloatModel;
use crate::instruction::InstructionModel;
use crate::int_value::IntValue;
use crate::value::ObjectModel;
use crate::value::ValueModel;
use crate::value::ValueTypeModel;
use crate::virtual_machine::after_steps;
use crate::virtual_machine::boxed;
use crate::virtual_machine::discarded;
use crate::virtual_machine::halted;
use crate::virtual_machine::introduced;
use crate::virtual_machine::law_block_restores_variables;
use crate::virtual_machine::law_deletes_delete;
use crate::virtual_machine::run;
use crate::virtual_machine::step;
use crate::virtual_machine::MachineModel;
use crate::virtual_machine::RunModel;
use crate::virtual_machine::StopModel;
use vstd::prelude::*;

verus! {

/// The code that makes a variable of each of the first `n` of `values` under the name at its
/// place in `names`: for each, a `Push` and a `NewVariable`.
pub open spec fn makes(names: Seq<Seq<char>>, values: Seq<IntValue>, n: int) -> Seq<InstructionModel>
    decreases n,
{
    if n <= 0 || n > names.len() || n > values.len() {
        Seq::empty()
    } else {
        makes(names, values, n - 1) + seq![
            InstructionModel::Push(ValueTypeModel::Int(values[n - 1])),
            InstructionModel::NewVariable(names[n - 1]),
        ]
    }
}

/// A `Delete` for each of `names`, in order.
pub open spec fn removes(names: Seq<Seq<char>>) -> Seq<InstructionModel> {
    Seq::new(names.len(), |i: int| InstructionModel::Delete(names[i]))
}

/// The code of a block of assignments of integers: the variables are made in order, and then
/// deleted in order.
pub open spec fn straight(names: Seq<Seq<char>>, values: Seq<IntValue>) -> Seq<InstructionModel> {
    makes(names, values, names.len() as int) + removes(names)
}

/// The record that the variable for each of `values` holds.
pub open spec fn records(values: Seq<IntValue>) -> Seq<ObjectModel> {
    Seq::new(values.len(), |i: int| boxed(ValueModel::Value(ValueTypeModel::Int(values[i]))))
}

proof fn lemma_makes_len(names: Seq<Seq<char>>, values: Seq<IntValue>, n: int)
    requires
        0 <= n <= names.len(),
        names.len() == values.len(),
    ensures
        makes(names, values, n).len() == 2 * n,
    decreases n,
{
    if n > 0 {
        lemma_makes_len(names, values, n - 1);
    }
}

proof fn lemma_makes_prefix(names: Seq<Seq<char>>, values: Seq<IntValue>, n: int, m: int, k: int)
    requires
        0 <= n <= m <= names.len(),
        names.len() == values.len(),
        0 <= k < 2 * n,
    ensures
        makes(names, values, m).len() == 2 * m,
        makes(names, values, m)[k] == makes(names, values, n)[k],
    decreases m - n,
{
    lemma_makes_len(names, values, m);
    lemma_makes_len(names, values, n);
    if n < m {
        lemma_makes_prefix(names, values, n, m - 1, k);
        lemma_makes_len(names, values, m - 1);
    }
}

proof fn lemma_makes_at(names: Seq<Seq<char>>, values: Seq<IntValue>, i: int)
    requires
        0 <= i < names.len(),
        names.len() == values.len(),
    ensures
        makes(names, values, names.len() as int).len() == 2 * names.len(),
        makes(names, values, names.len() as int)[2 * i] == InstructionModel::Push(
            ValueTypeModel::Int(values[i]),
        ),
        makes(names, values, names.len() as int)[2 * i + 1] == InstructionModel::NewVariable(names[i]),
{
    lemma_makes_len(names, values, i);
    lemma_makes_len(names, values, i + 1);
    lemma_makes_prefix(names, values, i + 1, names.len() as int, 2 * i);
    lemma_makes_prefix(names, values, i + 1, names.len() as int, 2 * i + 1);
}

proof fn lemma_introduced_has(
    heap: Map<Seq<char>, ObjectModel>,
    names: Seq<Seq<char>>,
    given: Seq<ObjectModel>,
    n: int,
    key: Seq<char>,
)
    requires
        0 <= n <= names.len(),
        names.len() == given.len(),
    ensures
        introduced(heap, names, given, n).contains_key(key) <==> heap.contains_key(key) || exists|
            i: int,
        | 0 <= i < n && names[i] == key,
    decreases n,
{
    if n > 0 {
        lemma_introduced_has(heap, names, given, n - 1, key);
        if names[n - 1] == key {
            assert(0 <= n - 1 < n && names[n - 1] == key);
        }
    }
}

/// The machine after the `Nop` and the code that makes the first `n` variables.
proof fn lemma_after_makes(m: MachineModel, names: Seq<Seq<char>>, values: Seq<IntValue>, n: int)
    requires
        0 <= n <= names.len(),
        names.len() == values.len(),
        m.pc == 0,
        m.stack.len() == 0,
        m.heap == Map::<Seq<char>, ObjectModel>::empty(),
        m.rom == seq![InstructionModel::Nop] + straight(names, values),
        m.rom.len() <= usize::MAX,
        forall|a: int, b: int| 0 <= a < b < names.len() ==> names[a] != names[b],
    ensures
        after_steps(m, (1 + 2 * n) as nat) == Some(
            MachineModel {
                pc: 1 + 2 * n,
                heap: introduced(m.heap, names, records(values), n),
                ..m
            },
        ),
    decreases n,
{
    let k = names.len() as int;
    lemma_makes_len(names, values, k);
    if n == 0 {
        assert(m.rom[0] == InstructionModel::Nop);
        assert(after_steps(m, 0) == Some(m));
        assert(m.stack =~= m.stack);
        assert(step(m) == Ok::<(MachineModel, OutcomeModel), crate::error::VmErrorModel>(
            (MachineModel { pc: 1, ..m }, OutcomeModel::Continue),
        ));
    } else {
        lemma_after_makes(m, names, values, n - 1);
        lemma_makes_at(names, values, n - 1);
        let heap = introduced(m.heap, names, records(values), n - 1);
        let before = MachineModel { pc: 1 + 2 * (n - 1), heap, ..m };
        let value = ValueModel::Value(ValueTypeModel::Int(values[n - 1]));
        assert(before.rom[before.pc] == straight(names, values)[2 * (n - 1)]);
        assert(before.rom[before.pc] == InstructionModel::Push(ValueTypeModel::Int(values[n - 1])));
        let pushed = MachineModel { pc: before.pc + 1, stack: before.stack.push(value), ..before };
        assert(step(before) == Ok::<(MachineModel, OutcomeModel), crate::error::VmErrorModel>(
            (pushed, OutcomeModel::Continue),
        ));
        assert(pushed.rom[pushed.pc] == straight(names, values)[2 * (n - 1) + 1]);
        assert(pushed.rom[pushed.pc] == InstructionModel::NewVariable(names[n - 1]));
        lemma_introduced_has(m.heap, names, records(values), n - 1, names[n - 1]);
        assert(!heap.contains_key(names[n - 1]));
        assert(pushed.stack.drop_last() =~= m.stack);
        assert(pushed.stack.last() == value);
        let made = MachineModel {
            pc: pushed.pc + 1,
            stack: m.stack,
            heap: heap.insert(names[n - 1], boxed(value)),
            ..pushed
        };
        assert(step(pushed) == Ok::<(MachineModel, OutcomeModel), crate::error::VmErrorModel>(
            (made, OutcomeModel::Continue),
        ));
        assert(records(values)[n - 1] == boxed(value));
        assert(after_steps(m, (1 + 2 * (n - 1)) as nat) == Some(before));
        assert(after_steps(m, (2 + 2 * (n - 1)) as nat) == Some(pushed));
        assert(after_steps(m, (1 + 2 * n) as nat) == Some(made));
    }
}

/// Steps one after the other: taking `a` steps and then `b` more is taking `a + b` steps.
proof fn lemma_steps_add(m: MachineModel, a: nat, b: nat)
    requires
        after_steps(m, a) is Some,
    ensures
        after_steps(m, a + b) == after_steps(after_steps(m, a)->0, b),
    decreases b,
{
    if b > 0 {
        lemma_steps_add(m, a, (b - 1) as nat);
        assert(a + b - 1 == a + (b - 1) as nat);
    }
}

/// A run that can take at least as many steps as lead the machine, without anything left
/// to the driver, to where it has halted, ends there and writes nothing.
proof fn lemma_run_reaches(m: MachineModel, n: nat, limit: nat)
    requires
        n <= limit,
        after_steps(m, n) matches Some(end) && halted(end),
    ensures
        run(m, limit) == (RunModel {
            machine: after_steps(m, n)->0,
            output: Seq::empty(),
            stop: StopModel::Halted,
        }),
    decreases n,
{
    if n == 0 {
    } else {
        lemma_first_step(m, n);
        let next = after_steps(m, 1)->0;
        lemma_steps_add(m, 1, (n - 1) as nat);
        lemma_run_reaches(next, (n - 1) as nat, (limit - 1) as nat);
        assert(after_steps(m, 0) == Some(m));
    }
}

/// Where `n` steps, at least one, can be taken, the first can.
proof fn lemma_first_step(m: MachineModel, n: nat)
    requires
        n >= 1,
        after_steps(m, n) is Some,
    ensures
        after_steps(m, 1) is Some,
        !halted(m),
        step(m) matches Ok((next, OutcomeModel::Continue)) && after_steps(m, 1) == Some(next),
    decreases n,
{
    assert(after_steps(m, 0) == Some(m));
    if n > 1 {
        lemma_first_step(m, (n - 1) as nat);
    }
}

/// A block of assignments leaves no variable behind. A machine that runs the code of a
/// block that assigns integers to variables of different names, with nothing after it,
/// halts after one step for the `Nop` and three for each variable; then it has no variables,
/// its stack is empty, and it has written nothing.
pub proof fn law_assignments_leave_no_variable(
    m: MachineModel,
    names: Seq<Seq<char>>,
    values: Seq<IntValue>,
    limit: nat,
)
    requires
        names.len() == values.len(),
        forall|a: int, b: int| 0 <= a < b < names.len() ==> names[a] != names[b],
        m.pc == 0,
        m.stack.len() == 0,
        m.heap == Map::<Seq<char>, ObjectModel>::empty(),
        m.rom == seq![InstructionModel::Nop] + straight(names, values),
        m.rom.len() <= usize::MAX,
        limit >= 1 + 3 * names.len(),
    ensures
        run(m, limit) == (RunModel {
            machine: MachineModel { pc: 1 + 3 * (names.len() as int), ..m },
            output: Seq::empty(),
            stop: StopModel::Halted,
        }),
{
    let k = names.len() as int;
    lemma_makes_len(names, values, k);
    lemma_after_makes(m, names, values, k);
    let full = introduced(m.heap, names, records(values), k);
    let made = MachineModel { pc: 1 + 2 * k, heap: full, ..m };
    assert forall|i: int| 0 <= i < k implies made.rom[made.pc + i] == InstructionModel::Delete(
        names[i],
    ) by {
        assert(made.rom[made.pc + i] == straight(names, values)[2 * k + i]);
        assert(straight(names, values)[2 * k + i] == removes(names)[i]);
    }
    assert forall|i: int| 0 <= i < k implies full.contains_key(names[i]) by {
        lemma_introduced_has(m.heap, names, records(values), k, names[i]);
    }
    law_deletes_delete(made, names, k);
    law_block_restores_variables(m.heap, names, records(values));
    let end = MachineModel { pc: 1 + 3 * k, ..m };
    assert(after_steps(made, k as nat) == Some(end));
    lemma_steps_add(m, (1 + 2 * k) as nat, k as nat);
    assert(after_steps(m, (1 + 3 * k) as nat) == Some(end));
    assert(halted(end));
    lemma_run_reaches(m, (1 + 3 * k) as nat, limit);
}



/// The statements that assign to each of `names` the integer literal at its place in `texts`.
pub open spec fn assignments(names: Seq<Seq<char>>, texts: Seq<Seq<char>>) -> Seq<StatementModel> {
    Seq::new(
        names.len(),
        |i: int|
            StatementModel::VariableAssignment { name: names[i], value: ExprModel::Integer(texts[i]) },
    )
}

/// Whether each of `texts` writes the integer at its place in `values`, under the narrowest
/// tag that holds it.
pub open spec fn written(texts: Seq<Seq<char>>, values: Seq<IntValue>) -> bool {
    &&& texts.len() == values.len()
    &&& forall|i: int|
        0 <= i < texts.len() ==> parse_i64(#[trigger] texts[i]) is Some && widened(
            parse_i64(texts[i])->0 as int,
            1,
        ) == Some(values[i])
}

proof fn lemma_assignments_lower(
    names: Seq<Seq<char>>,
    texts: Seq<Seq<char>>,
    values: Seq<IntValue>,
    floats: Seq<(Seq<char>, FloatModel)>,
    n: int,
)
    requires
        0 <= n <= names.len(),
        names.len() == texts.len(),
        written(texts, values),
    ensures
        lower_statements(fresh(), assignments(names, texts), n, outermost(), floats) == Ok::<
            Lowered,
            CompileError,
        >(Lowered { compiler: fresh(), code: plain(makes(names, values, n)), names: names.take(n) }),
    decreases n,
{
    let statements = assignments(names, texts);
    if n == 0 {
        assert(plain(makes(names, values, 0)) =~= Seq::empty());
        assert(names.take(0) =~= Seq::empty());
    } else {
        lemma_assignments_lower(names, texts, values, floats, n - 1);
        assert(statements[n - 1] == StatementModel::VariableAssignment {
            name: names[n - 1],
            value: ExprModel::Integer(texts[n - 1]),
        });
        assert(parse_i64(texts[n - 1]) is Some);
        let last = lower_statement(
            fresh(),
            statements[n - 1],
            entered(outermost(), names.take(n - 1)),
            floats,
        );
        let push = InstructionModel::Push(ValueTypeModel::Int(values[n - 1]));
        assert(last == Ok::<Lowered, CompileError>(
            Lowered {
                compiler: fresh(),
                code: plain(seq![push]) + one(InstructionModel::NewVariable(names[n - 1])),
                names: seq![names[n - 1]],
            },
        ));
        assert(plain(makes(names, values, n - 1)) + (plain(seq![push]) + one(
            InstructionModel::NewVariable(names[n - 1]),
        )) =~= plain(makes(names, values, n)));
        assert(names.take(n - 1) + seq![names[n - 1]] =~= names.take(n));
    }
}

proof fn lemma_plain_resolves(code: Seq<InstructionModel>, labels: Map<usize, int>, n: int)
    requires
        0 <= n <= code.len(),
    ensures
        code_count(plain(code), n) == n,
        label_table(plain(code), n) == Map::<usize, int>::empty(),
        resolved(plain(code), labels, n) == Ok::<Seq<InstructionModel>, CompileError>(code.take(n)),
    decreases n,
{
    if n == 0 {
        assert(code.take(0) =~= Seq::empty());
    } else {
        lemma_plain_resolves(code, labels, n - 1);
        assert(plain(code)[n - 1] == TranslationModel::Instruction(code[n - 1]));
        assert(code.take(n - 1).push(code[n - 1]) =~= code.take(n));
    }
}

/// The code of a block of assignments: a program that assigns integer literals to
/// variables compiles to the code that makes the variables in order and then deletes them in
/// order, with no function and no class.
pub proof fn law_assignments_compile(
    names: Seq<Seq<char>>,
    texts: Seq<Seq<char>>,
    values: Seq<IntValue>,
    floats: Seq<(Seq<char>, FloatModel)>,
)
    requires
        names.len() == texts.len(),
        written(texts, values),
    ensures
        compile_program(assignments(names, texts), floats) == Ok::<ProgramModel, CompileError>(
            ProgramModel {
                instructions: straight(names, values),
                functions: Map::empty(),
                classes: Map::empty(),
            },
        ),
{
    let k = names.len() as int;
    let statements = assignments(names, texts);
    lemma_assignments_lower(names, texts, values, floats, k);
    assert(names.take(k) =~= names);
    let code = plain(makes(names, values, k)) + deletes(names);
    assert(lower_block(fresh(), statements, outermost(), floats) == Ok::<
        (CompilerModel, Seq<TranslationModel>),
        CompileError,
    >((fresh(), code)));
    assert(code =~= plain(straight(names, values)));
    let all = straight(names, values);
    lemma_plain_resolves(all, label_table(plain(all), all.len() as int), all.len() as int);
    assert(all.take(all.len() as int) =~= all);
    assert(resolve(plain(all)) == Ok::<Seq<InstructionModel>, CompileError>(all));
}

/// A program of assignments leaves no variable behind. A program that assigns integer
/// literals to variables of different names compiles, and the machine that runs its code
/// from the start halts with no variables, an empty stack, and nothing written.
pub proof fn law_program_of_assignments(
    names: Seq<Seq<char>>,
    texts: Seq<Seq<char>>,
    values: Seq<IntValue>,
    floats: Seq<(Seq<char>, FloatModel)>,
    m: MachineModel,
    limit: nat,
)
    requires
        names.len() == texts.len(),
        written(texts, values),
        forall|a: int, b: int| 0 <= a < b < names.len() ==> names[a] != names[b],
        compile_program(assignments(names, texts), floats) matches Ok(p) && m.rom == seq![
            InstructionModel::Nop,
        ] + p.instructions,
        m.rom.len() <= usize::MAX,
        m.pc == 0,
        m.stack.len() == 0,
        m.heap == Map::<Seq<char>, ObjectModel>::empty(),
        limit >= 1 + 3 * names.len(),
    ensures
        run(m, limit).stop == StopModel::Halted,
        run(m, limit).machine.heap == Map::<Seq<char>, ObjectModel>::empty(),
        run(m, limit).machine.stack.len() == 0,
        run(m, limit).output.len() == 0,
{
    law_assignments_compile(names, texts, values, floats);
    law_assignments_leave_no_variable(m, names, values, limit);
}

/// What executing the instruction `i` adds to the number of variables.
pub open spec fn change(i: InstructionModel) -> int {
    match i {
        InstructionModel::NewVariable(_) => 1,
        InstructionModel::Delete(_) => -1,
        _ => 0,
    }
}

/// The number of variables that a run of at most `limit` steps from `m` makes, less the
/// number that it deletes: a step that fails makes and deletes none.
pub open spec fn made_less_deleted(m: MachineModel, limit: nat) -> int
    decreases limit,
{
    if halted(m) || limit == 0 {
        0
    } else {
        match step(m) {
            Err(_) => 0,
            Ok((next, OutcomeModel::Float(_))) => change(m.rom[m.pc]),
            Ok((next, _)) => change(m.rom[m.pc]) + made_less_deleted(next, (limit - 1) as nat),
        }
    }
}

/// Only `NewVariable` and `Delete` change which variables there are: a step that executes
/// `NewVariable` adds its name, which was not there, to the names of the variables; one that
/// executes `Delete` takes its name, which was there, from them; and a step that executes
/// anything else leaves them as they are.
pub proof fn law_step_changes_variables(m: MachineModel)
    requires
        !halted(m),
        0 <= m.pc,
        step(m) is Ok,
    ensures
        match m.rom[m.pc] {
            InstructionModel::NewVariable(name) => !m.heap.contains_key(name) && step(m)->Ok_0.0.heap.dom()
                == m.heap.dom().insert(name),
            InstructionModel::Delete(name) => m.heap.contains_key(name) && step(m)->Ok_0.0.heap.dom()
                == m.heap.dom().remove(name),
            _ => step(m)->Ok_0.0.heap.dom() == m.heap.dom(),
        },
        0 <= step(m)->Ok_0.0.pc,
{
    let after = step(m)->Ok_0.0;
    match m.rom[m.pc] {
        InstructionModel::NewVariable(name) => {
            assert(after.heap.dom() =~= m.heap.dom().insert(name));
        },
        InstructionModel::Delete(name) => {
            assert(after.heap.dom() =~= m.heap.dom().remove(name));
        },
        InstructionModel::Store(name) => {
            assert(after.heap.dom() =~= m.heap.dom());
        },
        _ => {
            assert(after.heap == m.heap);
        },
    }
}

/// A run leaves as many variables as it found and made, less those that it deleted. So a
/// run that starts without variables ends without variables exactly where it has deleted
/// as many as it has made: where each `NewVariable` that it executed was answered by a
/// `Delete`.
pub proof fn law_run_counts_variables(m: MachineModel, limit: nat)
    requires
        0 <= m.pc,
        m.heap.dom().finite(),
    ensures
        run(m, limit).machine.heap.dom().finite(),
        run(m, limit).machine.heap.dom().len() == m.heap.dom().len() + made_less_deleted(m, limit),
        m.heap.dom().len() == 0 ==> (run(m, limit).machine.heap == Map::<
            Seq<char>,
            ObjectModel,
        >::empty() <==> made_less_deleted(m, limit) == 0),
    decreases limit,
{
    if !halted(m) && limit > 0 {
        match step(m) {
            Err(_) => {},
            Ok((next, outcome)) => {
                law_step_changes_variables(m);
                assert(next.heap.dom().finite());
                assert(next.heap.dom().len() == m.heap.dom().len() + change(m.rom[m.pc]));
                match outcome {
                    OutcomeModel::Float(_) => {},
                    _ => {
                        law_run_counts_variables(next, (limit - 1) as nat);
                    },
                }
            },
        }
    }
    let last = run(m, limit).machine.heap;
    if last.dom().len() == 0 {
        assert(last.dom() =~= Set::<Seq<char>>::empty());
        assert(last =~= Map::<Seq<char>, ObjectModel>::empty());
    }
}

} // verus!
