//! A program whose functions end in a `return` and which runs to its end leaves no
//! variable.

use crate::balance::all_return;
use crate::balance::balanced;
use crate::balance::entries_of;
use crate::balance::law_program_is_balanced;
use crate::balance::lemma_walk_keeps;
use crate::balance::start_walk;
use crate::balance::through;
use crate::balance::walk;
use crate::balance::walk_item;
use crate::balance::Alive;
use crate::balance::Walk;
use crate::builtins::is_builtin;
use crate::builtins::OutcomeModel;
use crate::error::CompileError;
use crate::instruction::InstructionModel;
use crate::instruction_compiler::lower_block;
use crate::instruction_compiler::outermost;
use crate::instruction_compiler::JumpKind;
use crate::instruction_compiler::TranslationModel;
use crate::labels::code_count;
use crate::labels::compile_program;
use crate::labels::fresh;
use crate::labels::function_table;
use crate::labels::jump_instruction;
use crate::labels::label_table;
use crate::labels::law_label_addresses;
use crate::labels::lemma_code_count_bounds;
use crate::labels::lemma_resolved_len;
use crate::labels::resolve;
use crate::labels::resolved;
use crate::parser::StatementModel;
use crate::value::FloatModel;
use crate::value::ObjectModel;
use crate::virtual_machine::boxed;
use crate::virtual_machine::halted;
use crate::virtual_machine::run;
use crate::virtual_machine::step;
use crate::virtual_machine::MachineModel;
use crate::virtual_machine::StopModel;
use vstd::multiset::Multiset;
use vstd::prelude::*;

verus! {

/// Whether every variable of `heap` is among `live`.
pub open spec fn covered(heap: Map<Seq<char>, ObjectModel>, live: Multiset<Seq<char>>) -> bool {
    forall|x: Seq<char>| #[trigger] heap.contains_key(x) ==> live.count(x) >= 1
}

/// The variables that a walk finds alive after the item `at` of `code`.
pub open spec fn alive_after(code: Seq<TranslationModel>, entries: Set<usize>, at: int) -> Option<Alive> {
    walk(code, at + 1, start_walk(entries)).live
}

/// The variables that are alive in the first `n` of the calls that are under way, where
/// `frames` gives for each the place of its `Call` in `code`.
pub open spec fn pending(code: Seq<TranslationModel>, entries: Set<usize>, frames: Seq<int>, n: int) -> Multiset<
    Seq<char>,
>
    decreases n,
{
    if n <= 0 || n > frames.len() {
        Multiset::empty()
    } else {
        match alive_after(code, entries, frames[n - 1]) {
            Some(a) => pending(code, entries, frames, n - 1).add(a.names),
            None => pending(code, entries, frames, n - 1),
        }
    }
}

/// Whether the call `j` of the machine `m` was made at the place `frames[j]` of `code`, from
/// where a walk goes on, inside a function for every call but the first.
pub open spec fn frame_ok(
    m: MachineModel,
    code: Seq<TranslationModel>,
    entries: Set<usize>,
    frames: Seq<int>,
    j: int,
) -> bool {
    &&& 0 <= frames[j] < code.len()
    &&& !(code[frames[j]] is Label)
    &&& m.call_stack[j] == code_count(code, frames[j]) + 1
    &&& alive_after(code, entries, frames[j]) matches Some(a) && a.inside == (j > 0)
}

/// Whether every function of `functions` begins after a label of `code` that is among
/// `entries`.
pub open spec fn known(functions: Map<Seq<char>, usize>, code: Seq<TranslationModel>, entries: Set<usize>) -> bool {
    forall|name: Seq<char>| #[trigger]
        functions.contains_key(name) ==> exists|e: int| #[trigger]
            entry_at(code, entries, e) && functions[name] == code_count(code, e) + 1
}

/// Whether the item `e` of `code` is the label of an entry.
pub open spec fn entry_at(code: Seq<TranslationModel>, entries: Set<usize>, e: int) -> bool {
    0 <= e < code.len() && code[e] is Label && entries.contains(code[e]->Label_0)
}

/// Whether the machine `m`, which runs the instructions `instructions` of `code`, stands
/// before the item `i` of `code`, in the calls `frames`, and has no variable but those that
/// a walk finds alive there and at the calls.
pub open spec fn stands(
    m: MachineModel,
    code: Seq<TranslationModel>,
    instructions: Seq<InstructionModel>,
    entries: Set<usize>,
    frames: Seq<int>,
    i: int,
) -> bool {
    &&& 0 <= i <= code.len()
    &&& m.rom == seq![InstructionModel::Nop] + instructions
    &&& m.pc == code_count(code, i) + 1
    &&& m.call_stack.len() == frames.len()
    &&& forall|j: int| 0 <= j < frames.len() ==> #[trigger] frame_ok(m, code, entries, frames, j)
    &&& known(m.functions, code, entries)
    &&& walk(code, i, start_walk(entries)).live matches Some(a) && a.inside == (frames.len() > 0)
        && covered(m.heap, a.names.add(pending(code, entries, frames, frames.len() as int)))
}

proof fn lemma_walk_ok(code: Seq<TranslationModel>, n: int, k: int, w: Walk)
    requires
        0 <= k <= n <= code.len(),
        walk(code, n, w).ok,
    ensures
        walk(code, k, w).ok,
    decreases n - k,
{
    if k < n {
        assert(walk(code, n - 1, w).ok);
        lemma_walk_ok(code, n - 1, k, w);
    }
}

proof fn lemma_walk_labels(code: Seq<TranslationModel>, n: int, k: int, w: Walk, l: usize)
    requires
        0 <= k <= n <= code.len(),
        walk(code, k, w).labels.contains_key(l),
    ensures
        walk(code, n, w).labels.contains_key(l),
        walk(code, n, w).labels[l] == walk(code, k, w).labels[l],
    decreases n - k,
{
    if k < n {
        lemma_walk_labels(code, n - 1, k, w, l);
    }
}

proof fn lemma_after_label(code: Seq<TranslationModel>, j: int, w: Walk, l: usize)
    requires
        0 <= j < code.len(),
        code[j] == TranslationModel::Label(l),
        !w.entries.contains(l),
        walk(code, j + 1, w).ok,
    ensures
        walk(code, j + 1, w).labels.contains_key(l),
        walk(code, j + 1, w).live == walk(code, j + 1, w).labels[l],
{
    lemma_walk_keeps(code, j, w);
}

proof fn lemma_after_entry(code: Seq<TranslationModel>, j: int, w: Walk, l: usize)
    requires
        0 <= j < code.len(),
        code[j] == TranslationModel::Label(l),
        w.entries.contains(l),
    ensures
        walk(code, j + 1, w).live == Some(Alive { names: Multiset::empty(), inside: true }),
{
    lemma_walk_keeps(code, j, w);
}

proof fn lemma_after_jump(code: Seq<TranslationModel>, i: int, w: Walk, kind: JumpKind, l: usize)
    requires
        0 <= i < code.len(),
        code[i] == TranslationModel::Jump(kind, l),
        walk(code, i, w).live is Some,
        walk(code, i + 1, w).ok,
    ensures
        !w.entries.contains(l),
        walk(code, i + 1, w).labels.contains_key(l),
        walk(code, i + 1, w).labels[l] == walk(code, i, w).live,
        kind != JumpKind::Always ==> walk(code, i + 1, w).live == walk(code, i, w).live,
{
    lemma_walk_keeps(code, i, w);
}

proof fn lemma_label_place(code: Seq<TranslationModel>, n: int, l: usize) -> (j: int)
    requires
        0 <= n <= code.len(),
        label_table(code, n).contains_key(l),
    ensures
        0 <= j < n,
        code[j] == TranslationModel::Label(l),
        label_table(code, n)[l] == code_count(code, j) + 1,
    decreases n,
{
    if code[n - 1] == TranslationModel::Label(l) {
        n - 1
    } else {
        match code[n - 1] {
            TranslationModel::Label(other) => {
                assert(label_table(code, n - 1).contains_key(l));
            },
            _ => {},
        }
        lemma_label_place(code, n - 1, l)
    }
}

proof fn lemma_resolved_at(code: Seq<TranslationModel>, labels: Map<usize, int>, n: int, i: int)
    requires
        0 <= i < n <= code.len(),
        resolved(code, labels, n) is Ok,
        !(code[i] is Label),
    ensures
        0 <= code_count(code, i) < resolved(code, labels, n)->Ok_0.len(),
        match code[i] {
            TranslationModel::Instruction(ins) => resolved(code, labels, n)->Ok_0[code_count(code, i)]
                == ins,
            TranslationModel::Jump(kind, id) => labels.contains_key(id) && resolved(
                code,
                labels,
                n,
            )->Ok_0[code_count(code, i)] == jump_instruction(kind, labels[id] as usize),
            TranslationModel::Label(_) => true,
        },
    decreases n,
{
    lemma_code_count_bounds(code, i);
    lemma_resolved_len(code, labels, n - 1);
    if i < n - 1 {
        lemma_resolved_at(code, labels, n - 1, i);
    }
}

proof fn lemma_count_grows(code: Seq<TranslationModel>, a: int, b: int)
    requires
        0 <= a <= b <= code.len(),
    ensures
        code_count(code, a) <= code_count(code, b),
    decreases b - a,
{
    if a < b {
        lemma_count_grows(code, a, b - 1);
    }
}

proof fn lemma_skip_labels(code: Seq<TranslationModel>, i: int, w: Walk) -> (j: int)
    requires
        0 <= i <= code.len(),
        code_count(code, i) < code_count(code, code.len() as int),
        walk(code, i, w).live is Some,
        through(w, code).ok,
    ensures
        i <= j < code.len(),
        !(code[j] is Label),
        code_count(code, j) == code_count(code, i),
        walk(code, j, w).live == walk(code, i, w).live,
    decreases code.len() - i,
{
    if i == code.len() {
        i
    } else if code[i] is Label {
        lemma_walk_ok(code, code.len() as int, i + 1, w);
        lemma_walk_keeps(code, i, w);
        assert(code_count(code, i + 1) == code_count(code, i));
        assert(walk(code, i + 1, w).live == walk(code, i, w).live);
        lemma_skip_labels(code, i + 1, w)
    } else {
        i
    }
}

proof fn lemma_rest_labels(code: Seq<TranslationModel>, i: int, n: int, w: Walk)
    requires
        0 <= i <= n <= code.len(),
        code_count(code, i) == code_count(code, n),
        walk(code, i, w).live is Some,
        through(w, code).ok,
    ensures
        walk(code, n, w).live == walk(code, i, w).live,
    decreases n - i,
{
    if i < n {
        lemma_count_grows(code, i, n - 1);
        lemma_rest_labels(code, i, n - 1, w);
        lemma_walk_ok(code, code.len() as int, n, w);
        lemma_walk_keeps(code, n - 1, w);
    }
}

proof fn lemma_pending_same(
    code: Seq<TranslationModel>,
    entries: Set<usize>,
    a: Seq<int>,
    b: Seq<int>,
    n: int,
)
    requires
        0 <= n <= a.len(),
        n <= b.len(),
        forall|j: int| 0 <= j < n ==> a[j] == b[j],
    ensures
        pending(code, entries, a, n) == pending(code, entries, b, n),
    decreases n,
{
    if n > 0 {
        lemma_pending_same(code, entries, a, b, n - 1);
    }
}

proof fn lemma_step_other(
    code: Seq<TranslationModel>,
    instructions: Seq<InstructionModel>,
    entries: Set<usize>,
    frames: Seq<int>,
    m: MachineModel,
    i: int,
    ins: InstructionModel,
)
    requires
        stands(m, code, instructions, entries, frames, i),
        0 <= i < code.len(),
        code[i] == TranslationModel::Instruction(ins),
        walk(code, i + 1, start_walk(entries)).ok,
        m.rom[m.pc] == ins,
        !halted(m),
        step(m) is Ok,
        !(ins is Return),
        ins matches InstructionModel::Call(name) ==> is_builtin(name) || m.classes.contains_key(name),
    ensures
        stands(step(m)->Ok_0.0, code, instructions, entries, frames, i + 1),
{
    let next = step(m)->Ok_0.0;
    let before = walk(code, i, start_walk(entries));
    let after = walk(code, i + 1, start_walk(entries));
    let live = before.live->Some_0;
    let rest = pending(code, entries, frames, frames.len() as int);
    assert(after == walk_item(before, code[i]));
    assert(code_count(code, i + 1) == code_count(code, i) + 1);
    match ins {
        InstructionModel::NewVariable(name) => {
            assert(next.heap == m.heap.insert(name, boxed(m.stack.last())));
            assert(after.live == Some(live.made(name)));
            assert forall|x: Seq<char>| #[trigger] next.heap.contains_key(x) implies live.made(
                name,
            ).names.add(rest).count(x) >= 1 by {
                if x != name {
                    assert(m.heap.contains_key(x));
                    assert(live.names.add(rest).count(x) >= 1);
                }
            }
        },
        InstructionModel::Delete(name) => {
            assert(next.heap == m.heap.remove(name));
            assert(after.live == Some(live.deleted(name)));
            assert forall|x: Seq<char>| #[trigger] next.heap.contains_key(x) implies live.deleted(
                name,
            ).names.add(rest).count(x) >= 1 by {
                assert(m.heap.contains_key(x));
                assert(x != name);
                assert(live.names.add(rest).count(x) >= 1);
            }
        },
        InstructionModel::Store(name) => {
            assert(after.live == Some(live));
            assert forall|x: Seq<char>| #[trigger] next.heap.contains_key(x) implies live.names.add(
                rest,
            ).count(x) >= 1 by {
                assert(m.heap.contains_key(x));
            }
        },
        InstructionModel::Jump(_) | InstructionModel::JumpIfFalse(_) | InstructionModel::JumpIfTrue(_) => {
            assert(!after.ok);
        },
        _ => {
            assert(next.heap == m.heap);
            assert(next.pc == m.pc + 1);
        },
    }
    assert(next.call_stack == m.call_stack);
    assert forall|j: int| 0 <= j < frames.len() implies #[trigger] frame_ok(next, code, entries, frames, j) by {
        assert(frame_ok(m, code, entries, frames, j));
    }
}

proof fn lemma_step_call(
    code: Seq<TranslationModel>,
    instructions: Seq<InstructionModel>,
    entries: Set<usize>,
    frames: Seq<int>,
    m: MachineModel,
    i: int,
    name: Seq<char>,
) -> (j: int)
    requires
        stands(m, code, instructions, entries, frames, i),
        0 <= i < code.len(),
        code[i] == TranslationModel::Instruction(InstructionModel::Call(name)),
        m.rom[m.pc] == InstructionModel::Call(name),
        m.rom.len() <= usize::MAX,
        !halted(m),
        step(m) is Ok,
        !is_builtin(name),
        !m.classes.contains_key(name),
    ensures
        stands(step(m)->Ok_0.0, code, instructions, entries, frames.push(i), j),
{
    let next = step(m)->Ok_0.0;
    let w = start_walk(entries);
    let k = frames.len() as int;
    let live = walk(code, i, w).live->Some_0;
    let rest = pending(code, entries, frames, k);
    let more = frames.push(i);
    assert(m.functions.contains_key(name));
    let e = choose|e: int| #[trigger]
        entry_at(code, entries, e) && m.functions[name] == code_count(code, e) + 1;
    lemma_code_count_bounds(code, e);
    lemma_code_count_bounds(code, i);
    lemma_after_entry(code, e, w, code[e]->Label_0);
    assert(code_count(code, e + 1) == code_count(code, e));
    assert(walk(code, i + 1, w) == walk_item(walk(code, i, w), code[i]));
    assert(alive_after(code, entries, i) == Some(live));
    assert(next.pc == m.functions[name]);
    assert(next.call_stack == m.call_stack.push(m.pc as usize));
    assert(next.heap == m.heap);
    lemma_pending_same(code, entries, more, frames, k);
    assert(pending(code, entries, more, k + 1) == rest.add(live.names));
    assert(Multiset::<Seq<char>>::empty().add(rest.add(live.names)) =~= live.names.add(rest));
    assert forall|j: int| 0 <= j < more.len() implies #[trigger] frame_ok(next, code, entries, more, j) by {
        if j < k {
            assert(frame_ok(m, code, entries, frames, j));
        }
    }
    e + 1
}

proof fn lemma_step_return(
    code: Seq<TranslationModel>,
    instructions: Seq<InstructionModel>,
    entries: Set<usize>,
    frames: Seq<int>,
    m: MachineModel,
    i: int,
) -> (j: int)
    requires
        stands(m, code, instructions, entries, frames, i),
        0 <= i < code.len(),
        code[i] == TranslationModel::Instruction(InstructionModel::Return),
        walk(code, i + 1, start_walk(entries)).ok,
        m.rom[m.pc] == InstructionModel::Return,
        !halted(m),
        step(m) is Ok,
    ensures
        frames.len() > 0,
        stands(step(m)->Ok_0.0, code, instructions, entries, frames.drop_last(), j),
{
    let next = step(m)->Ok_0.0;
    let w = start_walk(entries);
    let k = frames.len() as int;
    let live = walk(code, i, w).live->Some_0;
    let fewer = frames.drop_last();
    let q = frames[k - 1];
    lemma_walk_keeps(code, i, w);
    assert(walk(code, i + 1, w) == walk_item(walk(code, i, w), code[i]));
    assert(live.names.subset_of(Multiset::<Seq<char>>::empty()));
    assert(live.names =~= Multiset::<Seq<char>>::empty());
    assert(frame_ok(m, code, entries, frames, k - 1));
    let back = alive_after(code, entries, q)->Some_0;
    assert(code_count(code, q + 1) == code_count(code, q) + 1);
    assert(next.pc == m.call_stack.last() + 1);
    assert(next.call_stack == m.call_stack.drop_last());
    assert(next.heap == m.heap);
    lemma_pending_same(code, entries, fewer, frames, k - 1);
    assert(pending(code, entries, frames, k) == pending(code, entries, frames, k - 1).add(back.names));
    assert(back.names.add(pending(code, entries, fewer, k - 1)) =~= live.names.add(
        pending(code, entries, frames, k),
    ));
    assert forall|j: int| 0 <= j < fewer.len() implies #[trigger] frame_ok(next, code, entries, fewer, j) by {
        assert(frame_ok(m, code, entries, frames, j));
    }
    q + 1
}

proof fn lemma_step_jump(
    code: Seq<TranslationModel>,
    instructions: Seq<InstructionModel>,
    entries: Set<usize>,
    frames: Seq<int>,
    m: MachineModel,
    i: int,
    kind: JumpKind,
    id: usize,
) -> (j: int)
    requires
        stands(m, code, instructions, entries, frames, i),
        0 <= i < code.len(),
        code[i] == TranslationModel::Jump(kind, id),
        through(start_walk(entries), code).ok,
        code_count(code, code.len() as int) + 1 <= usize::MAX,
        label_table(code, code.len() as int).contains_key(id),
        m.rom[m.pc] == jump_instruction(kind, label_table(code, code.len() as int)[id] as usize),
        !halted(m),
        step(m) is Ok,
    ensures
        stands(step(m)->Ok_0.0, code, instructions, entries, frames, j),
{
    let n = code.len() as int;
    let w = start_walk(entries);
    let next = step(m)->Ok_0.0;
    let live = walk(code, i, w).live->Some_0;
    let place = lemma_label_place(code, n, id);
    let line = label_table(code, n)[id];
    law_label_addresses(code, n, id);
    lemma_code_count_bounds(code, n);
    assert(1 <= line <= code_count(code, n) + 1);
    assert(line as usize == line);
    lemma_walk_ok(code, n, i + 1, w);
    lemma_walk_ok(code, n, place + 1, w);
    lemma_after_jump(code, i, w, kind, id);
    lemma_after_label(code, place, w, id);
    lemma_walk_labels(code, n, i + 1, w, id);
    lemma_walk_labels(code, n, place + 1, w, id);
    assert(walk(code, place + 1, w).live == Some(live));
    assert(code_count(code, place + 1) == code_count(code, place));
    assert(code_count(code, i + 1) == code_count(code, i) + 1);
    assert(next.heap == m.heap);
    assert(next.call_stack == m.call_stack);
    assert forall|j: int| 0 <= j < frames.len() implies #[trigger] frame_ok(next, code, entries, frames, j) by {
        assert(frame_ok(m, code, entries, frames, j));
    }
    if next.pc == line {
        place + 1
    } else {
        assert(kind != JumpKind::Always);
        assert(next.pc == m.pc + 1);
        i + 1
    }
}

proof fn lemma_step(
    code: Seq<TranslationModel>,
    instructions: Seq<InstructionModel>,
    entries: Set<usize>,
    frames: Seq<int>,
    m: MachineModel,
    i: int,
) -> (r: (int, Seq<int>))
    requires
        stands(m, code, instructions, entries, frames, i),
        through(start_walk(entries), code).ok,
        resolve(code) == Ok::<Seq<InstructionModel>, CompileError>(instructions),
        code_count(code, code.len() as int) + 1 <= usize::MAX,
        !halted(m),
        step(m) is Ok,
    ensures
        stands(step(m)->Ok_0.0, code, instructions, entries, r.1, r.0),
{
    let n = code.len() as int;
    let w = start_walk(entries);
    let labels = label_table(code, n);
    lemma_resolved_len(code, labels, n);
    let at = lemma_skip_labels(code, i, w);
    lemma_resolved_at(code, labels, n, at);
    lemma_walk_ok(code, n, at + 1, w);
    lemma_walk_ok(code, n, at, w);
    assert(m.rom[m.pc] == instructions[code_count(code, at)]);
    assert(stands(m, code, instructions, entries, frames, at));
    match code[at] {
        TranslationModel::Instruction(ins) => {
            match ins {
                InstructionModel::Return => {
                    let j = lemma_step_return(code, instructions, entries, frames, m, at);
                    (j, frames.drop_last())
                },
                InstructionModel::Call(name) => {
                    if is_builtin(name) || m.classes.contains_key(name) {
                        lemma_step_other(code, instructions, entries, frames, m, at, ins);
                        (at + 1, frames)
                    } else {
                        let j = lemma_step_call(code, instructions, entries, frames, m, at, name);
                        (j, frames.push(at))
                    }
                },
                _ => {
                    lemma_step_other(code, instructions, entries, frames, m, at, ins);
                    (at + 1, frames)
                },
            }
        },
        TranslationModel::Jump(kind, id) => {
            let j = lemma_step_jump(code, instructions, entries, frames, m, at, kind, id);
            (j, frames)
        },
        TranslationModel::Label(_) => (at, frames),
    }
}

/// A run from a machine that stands before an item of balanced code ends, unless it
/// fails, in a machine that stands before an item of the code.
proof fn lemma_run(
    code: Seq<TranslationModel>,
    instructions: Seq<InstructionModel>,
    entries: Set<usize>,
    frames: Seq<int>,
    m: MachineModel,
    i: int,
    limit: nat,
) -> (r: (int, Seq<int>))
    requires
        stands(m, code, instructions, entries, frames, i),
        through(start_walk(entries), code).ok,
        resolve(code) == Ok::<Seq<InstructionModel>, CompileError>(instructions),
        code_count(code, code.len() as int) + 1 <= usize::MAX,
    ensures
        !(run(m, limit).stop is Failed) ==> stands(run(m, limit).machine, code, instructions, entries, r.1, r.0),
    decreases limit,
{
    if halted(m) || limit == 0 {
        (i, frames)
    } else {
        match step(m) {
            Err(_) => (i, frames),
            Ok((next, OutcomeModel::Float(_))) => lemma_step(code, instructions, entries, frames, m, i),
            Ok((next, _)) => {
                let r = lemma_step(code, instructions, entries, frames, m, i);
                lemma_run(code, instructions, entries, r.1, next, r.0, (limit - 1) as nat)
            },
        }
    }
}

/// A machine that has run balanced code to its end has no variable left.
proof fn lemma_end(
    code: Seq<TranslationModel>,
    instructions: Seq<InstructionModel>,
    entries: Set<usize>,
    frames: Seq<int>,
    m: MachineModel,
    i: int,
)
    requires
        stands(m, code, instructions, entries, frames, i),
        balanced(code, entries),
        resolve(code) == Ok::<Seq<InstructionModel>, CompileError>(instructions),
        halted(m),
    ensures
        m.heap == Map::<Seq<char>, ObjectModel>::empty(),
        m.call_stack.len() == 0,
{
    let n = code.len() as int;
    let w = start_walk(entries);
    lemma_resolved_len(code, label_table(code, n), n);
    lemma_count_grows(code, i, n);
    lemma_rest_labels(code, i, n, w);
    let live = through(w, code).live->Some_0;
    assert(frames.len() == 0);
    assert(pending(code, entries, frames, 0) == Multiset::<Seq<char>>::empty());
    assert forall|x: Seq<char>| !m.heap.contains_key(x) by {
        assert(live.names.add(pending(code, entries, frames, 0)).count(x) == 0);
    }
    assert(m.heap =~= Map::<Seq<char>, ObjectModel>::empty());
}

/// Every function of a table begins after the label of its entry.
proof fn lemma_table_known(
    code: Seq<TranslationModel>,
    functions: Seq<(Seq<char>, usize)>,
    n: int,
)
    requires
        0 <= n <= functions.len(),
        code_count(code, code.len() as int) + 1 <= usize::MAX,
        function_table(functions, label_table(code, code.len() as int), n) is Ok,
    ensures
        known(
            function_table(functions, label_table(code, code.len() as int), n)->Ok_0,
            code,
            entries_of(functions),
        ),
    decreases n,
{
    let labels = label_table(code, code.len() as int);
    let table = function_table(functions, labels, n)->Ok_0;
    let entries = entries_of(functions);
    if n > 0 {
        lemma_table_known(code, functions, n - 1);
        let before = function_table(functions, labels, n - 1)->Ok_0;
        let label = functions[n - 1].1;
        let e = lemma_label_place(code, code.len() as int, label);
        law_label_addresses(code, code.len() as int, label);
        assert(entries.contains(label));
        assert(entry_at(code, entries, e));
        assert forall|name: Seq<char>| #[trigger] table.contains_key(name) implies exists|e: int| #[trigger]
            entry_at(code, entries, e) && table[name] == code_count(code, e) + 1 by {
            if name == functions[n - 1].0 {
                assert(entry_at(code, entries, e) && table[name] == code_count(code, e) + 1);
            } else {
                assert(before.contains_key(name));
                let old = choose|e: int| #[trigger]
                    entry_at(code, entries, e) && before[name] == code_count(code, e) + 1;
                assert(entry_at(code, entries, old) && table[name] == code_count(code, old) + 1);
            }
        }
    }
}

/// Whether the machine `m` is one that runs the program `statements`: it holds the code of
/// the program and stands in it, before its first step, or before the item `i` of the code
/// and in the calls that were made at the items `frames`, with no variable but those that
/// are alive there.
pub open spec fn runs(
    m: MachineModel,
    statements: Seq<StatementModel>,
    floats: Seq<(Seq<char>, FloatModel)>,
    frames: Seq<int>,
    i: int,
) -> bool {
    &&& compile_program(statements, floats) is Ok
    &&& m.rom.len() <= usize::MAX
    &&& ({
        let lowered = lower_block(fresh(), statements, outermost(), floats)->Ok_0;
        let p = compile_program(statements, floats)->Ok_0;
        if m.pc == 0 {
            &&& i == 0
            &&& frames.len() == 0
            &&& m.rom == seq![InstructionModel::Nop] + p.instructions
            &&& m.functions == p.functions
            &&& m.heap == Map::<Seq<char>, ObjectModel>::empty()
            &&& m.call_stack.len() == 0
        } else {
            stands(m, lowered.1, p.instructions, entries_of(lowered.0.functions), frames, i)
        }
    })
}

/// A machine that runs a program whose functions end in a `return` goes on running it:
/// after a run that does not fail, the machine stands before an item of the program's code
/// again, with no variable but those that are alive there and in the calls under way. What
/// the machine has on its stack does not matter, so this holds as well of a machine on which
/// the result of a float operation was pushed after a run that left one.
pub proof fn law_run_stays_in_program(
    statements: Seq<StatementModel>,
    floats: Seq<(Seq<char>, FloatModel)>,
    m: MachineModel,
    frames: Seq<int>,
    i: int,
    limit: nat,
) -> (r: (int, Seq<int>))
    requires
        all_return(statements, statements.len() as int),
        runs(m, statements, floats, frames, i),
    ensures
        !(run(m, limit).stop is Failed) ==> runs(run(m, limit).machine, statements, floats, r.1, r.0),
{
    let lowered = lower_block(fresh(), statements, outermost(), floats)->Ok_0;
    let code = lowered.1;
    let entries = entries_of(lowered.0.functions);
    let p = compile_program(statements, floats)->Ok_0;
    let n = code.len() as int;
    law_program_is_balanced(statements, floats);
    lemma_resolved_len(code, label_table(code, n), n);
    lemma_code_count_bounds(code, n);
    if m.pc == 0 {
        if limit == 0 {
            (0, frames)
        } else {
            let next = step(m)->Ok_0.0;
            assert(m.rom[0] == InstructionModel::Nop);
            assert(!halted(m));
            assert(next == MachineModel { pc: 1, ..m });
            lemma_table_known(code, lowered.0.functions, lowered.0.functions.len() as int);
            assert(pending(code, entries, frames, 0) == Multiset::<Seq<char>>::empty());
            assert(covered(next.heap, Multiset::<Seq<char>>::empty().add(Multiset::empty())));
            assert(stands(next, code, p.instructions, entries, frames, 0));
            assert(run(m, limit) == run(next, (limit - 1) as nat));
            let r = lemma_run(code, p.instructions, entries, frames, next, 0, (limit - 1) as nat);
            if !(run(m, limit).stop is Failed) {
                lemma_code_count_bounds(code, r.0);
            }
            r
        }
    } else {
        let r = lemma_run(code, p.instructions, entries, frames, m, i, limit);
        if !(run(m, limit).stop is Failed) {
            lemma_code_count_bounds(code, r.0);
        }
        r
    }
}

/// A program whose functions end in a `return` and which has run to its end leaves no
/// variable and no call: a machine that runs such a program and has halted has no
/// variables, and its call stack is empty.
pub proof fn law_end_leaves_no_variable(
    statements: Seq<StatementModel>,
    floats: Seq<(Seq<char>, FloatModel)>,
    m: MachineModel,
    frames: Seq<int>,
    i: int,
)
    requires
        all_return(statements, statements.len() as int),
        runs(m, statements, floats, frames, i),
        halted(m),
    ensures
        m.heap == Map::<Seq<char>, ObjectModel>::empty(),
        m.call_stack.len() == 0,
{
    let lowered = lower_block(fresh(), statements, outermost(), floats)->Ok_0;
    let p = compile_program(statements, floats)->Ok_0;
    law_program_is_balanced(statements, floats);
    if m.pc != 0 {
        lemma_end(lowered.1, p.instructions, entries_of(lowered.0.functions), frames, m, i);
    }
}

/// A program whose functions end in a `return` and which runs to its end leaves no
/// variable: where such a program compiles, and the machine that runs its code from the
/// start halts, the machine has no variables then, and its call stack is empty.
pub proof fn law_run_leaves_no_variable(
    statements: Seq<StatementModel>,
    floats: Seq<(Seq<char>, FloatModel)>,
    m: MachineModel,
    limit: nat,
)
    requires
        all_return(statements, statements.len() as int),
        compile_program(statements, floats) matches Ok(p) && m.rom == seq![InstructionModel::Nop]
            + p.instructions && m.functions == p.functions,
        m.rom.len() <= usize::MAX,
        m.pc == 0,
        m.heap == Map::<Seq<char>, ObjectModel>::empty(),
        m.call_stack.len() == 0,
        run(m, limit).stop == StopModel::Halted,
    ensures
        run(m, limit).machine.heap == Map::<Seq<char>, ObjectModel>::empty(),
        run(m, limit).machine.call_stack.len() == 0,
{
    let r = law_run_stays_in_program(statements, floats, m, Seq::empty(), 0, limit);
    lemma_halts_halted(m, limit);
    law_end_leaves_no_variable(statements, floats, run(m, limit).machine, r.1, r.0);
}

proof fn lemma_halts_halted(m: MachineModel, limit: nat)
    requires
        run(m, limit).stop == StopModel::Halted,
    ensures
        halted(run(m, limit).machine),
    decreases limit,
{
    if !halted(m) && limit > 0 {
        match step(m) {
            Ok((next, OutcomeModel::Float(_))) => {},
            Ok((next, _)) => {
                lemma_halts_halted(next, (limit - 1) as nat);
            },
            Err(_) => {},
        }
    }
}

} // verus!
