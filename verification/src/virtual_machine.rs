//! The stack machine: what each instruction does, one step, and a run of steps.

use crate::builtins::argument_count;
use crate::builtins::arguments;
use crate::builtins::below_arguments;
use crate::builtins::builtin_name;
use crate::builtins::call_builtin;
use crate::builtins::is_builtin;
use crate::builtins::run_builtin;
use crate::builtins::take_arguments;
use crate::builtins::OutcomeModel;
use crate::builtins::StepOutcome;
use crate::error::VmError;
use crate::error::VmErrorModel;
use crate::instruction::code_model;
use crate::instruction::Instruction;
use crate::instruction::InstructionModel;
use crate::operators::apply;
use crate::operators::compute;
use crate::operators::BinaryOp;
use crate::operators::Computed;
use crate::operators::ComputedModel;
use crate::operators::FloatTask;
use crate::operators::FloatTaskModel;
use crate::text::has_dot;
use crate::text::head_of;
use crate::text::split_name;
use crate::text::tail_of;
use crate::value::construct;
use crate::value::copy_object;
use crate::value::copy_value;
use crate::value::lookup;
use crate::value::member_at;
use crate::value::object_value;
use crate::value::put;
use crate::value::scalar_of;
use crate::value::value_key;
use crate::value::values_model;
use crate::value::with_member;
use crate::value::CreatorModel;
use crate::value::Object;
use crate::value::ObjectCreator;
use crate::value::ObjectModel;
use crate::value::Value;
use crate::value::ValueModel;
use crate::value::ValueType;
use crate::value::ValueTypeModel;
use vstd::hash_map::StringHashMap;
use vstd::prelude::*;
use vstd::string::StringExecFns;

verus! {

/// The stack machine: a value stack, the instructions with a `Nop` before them, the index
/// of the instruction to execute next, the variables by name, the entry of each function by
/// name, the return addresses of the calls under way, and the classes by name.
pub struct VirtualMachine {
    pub stack: Vec<Value>,
    pub rom: Vec<Instruction>,
    pub pc: usize,
    pub heap: StringHashMap<Object>,
    pub functions: StringHashMap<usize>,
    pub call_stack: Vec<usize>,
    pub class_definitions: StringHashMap<ObjectCreator>,
}

/// A [`VirtualMachine`] as a mathematical value.
pub struct MachineModel {
    pub stack: Seq<ValueModel>,
    pub rom: Seq<InstructionModel>,
    pub pc: int,
    pub heap: Map<Seq<char>, ObjectModel>,
    pub functions: Map<Seq<char>, usize>,
    pub call_stack: Seq<usize>,
    pub classes: Map<Seq<char>, CreatorModel>,
}

/// The variables of `heap` as mathematical values.
pub open spec fn heap_model(heap: Map<Seq<char>, Object>) -> Map<Seq<char>, ObjectModel> {
    Map::new(|k: Seq<char>| heap.contains_key(k), |k: Seq<char>| heap[k]@)
}

/// The classes of `classes` as mathematical values.
pub open spec fn classes_model(classes: Map<Seq<char>, ObjectCreator>) -> Map<Seq<char>, CreatorModel> {
    Map::new(|k: Seq<char>| classes.contains_key(k), |k: Seq<char>| classes[k]@)
}

impl View for VirtualMachine {
    type V = MachineModel;

    open spec fn view(&self) -> MachineModel {
        MachineModel {
            stack: values_model(self.stack@),
            rom: code_model(self.rom@),
            pc: self.pc as int,
            heap: heap_model(self.heap@),
            functions: self.functions@,
            call_stack: self.call_stack@,
            classes: classes_model(self.class_definitions@),
        }
    }
}

/// The machine that is about to run `code`: a `Nop` stands before the code, so that the
/// instruction at address 1 is the first of it; the stacks are empty and there are no
/// variables.
pub open spec fn started(
    code: Seq<Instruction>,
    functions: Map<Seq<char>, usize>,
    classes: Map<Seq<char>, ObjectCreator>,
) -> MachineModel {
    MachineModel {
        stack: Seq::empty(),
        rom: seq![InstructionModel::Nop] + code_model(code),
        pc: 0,
        heap: Map::empty(),
        functions,
        call_stack: Seq::empty(),
        classes: classes_model(classes),
    }
}

/// What a step gives: the machine after it and what is left to the driver, or the failure.
pub type Stepped = Result<(MachineModel, OutcomeModel), VmErrorModel>;

/// The machine `m` with the stack `stack`, and nothing left to the driver.
pub open spec fn with_stack(m: MachineModel, stack: Seq<ValueModel>) -> Stepped {
    Ok((MachineModel { stack, ..m }, OutcomeModel::Continue))
}

/// What an instruction that applies `op` does: it takes the right operand off the stack,
/// then the left one, and pushes what the operator gives on the plain values that they
/// stand for. Where a float is among them, the operation is left to the driver and nothing
/// is pushed.
pub open spec fn binary(m: MachineModel, op: BinaryOp) -> Stepped {
    let n = m.stack.len() as int;
    if n < 2 {
        Err(VmErrorModel::Stack)
    } else {
        match (scalar_of(m.stack[n - 2]), scalar_of(m.stack[n - 1])) {
            (Some(lhs), Some(rhs)) => match compute(op, lhs, rhs) {
                Ok(ComputedModel::Value(v)) => with_stack(
                    m,
                    m.stack.take(n - 2).push(ValueModel::Value(v)),
                ),
                Ok(ComputedModel::Float(task)) => Ok(
                    (MachineModel { stack: m.stack.take(n - 2), ..m }, OutcomeModel::Float(task)),
                ),
                Err(e) => Err(e),
            },
            _ => Err(VmErrorModel::Type),
        }
    }
}

/// What `Load` does: it pushes the variable before the first period of `name`, or the
/// member of it that the rest of `name` leads to. A variable that stands for a plain value
/// is pushed as that value, any other as the record it is.
pub open spec fn load(m: MachineModel, name: Seq<char>) -> Stepped {
    let head = head_of(name);
    let tail = tail_of(name);
    if !m.heap.contains_key(head) {
        Err(VmErrorModel::Name)
    } else if tail.len() == 0 {
        match object_value(m.heap[head]) {
            Ok(Some(t)) => with_stack(m, m.stack.push(ValueModel::Value(t))),
            Ok(None) => with_stack(m, m.stack.push(ValueModel::Object(m.heap[head]))),
            Err(e) => Err(e),
        }
    } else {
        match member_at(m.heap[head], tail) {
            Ok(t) => with_stack(m, m.stack.push(ValueModel::Value(t))),
            Err(e) => Err(e),
        }
    }
}

/// The record that `Store` leaves in a variable that held `current`, for the rest `tail` of
/// the name and the value `top` taken off the stack.
pub open spec fn stored(current: ObjectModel, tail: Seq<char>, top: ValueModel) -> Result<
    ObjectModel,
    VmErrorModel,
> {
    if tail.len() == 0 {
        match top {
            ValueModel::Value(_) => Ok(
                ObjectModel { name: current.name, members: put(current.members, value_key(), top) },
            ),
            ValueModel::Object(o) => Ok(o),
        }
    } else {
        with_member(current, tail, top)
    }
}

/// What `Store` does: it takes the top of the stack and writes it to the variable before
/// the first period of `name`, or to the member of it that the rest of `name` leads to.
pub open spec fn store(m: MachineModel, name: Seq<char>) -> Stepped {
    let head = head_of(name);
    if !m.heap.contains_key(head) {
        Err(VmErrorModel::Name)
    } else if m.stack.len() == 0 {
        Err(VmErrorModel::Stack)
    } else {
        match stored(m.heap[head], tail_of(name), m.stack.last()) {
            Ok(changed) => Ok(
                (
                    MachineModel {
                        stack: m.stack.drop_last(),
                        heap: m.heap.insert(head, changed),
                        ..m
                    },
                    OutcomeModel::Continue,
                ),
            ),
            Err(e) => Err(e),
        }
    }
}

/// The record that a new variable holds for the value `top`: `top` itself where it is a
/// record, and for a plain value a nameless record with that value as its only member.
pub open spec fn boxed(top: ValueModel) -> ObjectModel {
    match top {
        ValueModel::Value(_) => ObjectModel {
            name: Seq::empty(),
            members: seq![(value_key(), top)],
        },
        ValueModel::Object(o) => o,
    }
}

/// What `NewVariable` does: it takes the top of the stack and makes it the variable `name`,
/// which must not exist.
pub open spec fn new_variable(m: MachineModel, name: Seq<char>) -> Stepped {
    if m.stack.len() == 0 {
        Err(VmErrorModel::Stack)
    } else if m.heap.contains_key(name) {
        Err(VmErrorModel::Name)
    } else {
        Ok(
            (
                MachineModel {
                    stack: m.stack.drop_last(),
                    heap: m.heap.insert(name, boxed(m.stack.last())),
                    ..m
                },
                OutcomeModel::Continue,
            ),
        )
    }
}

/// What `Delete` does: it removes the variable `name`, which must exist.
pub open spec fn delete(m: MachineModel, name: Seq<char>) -> Stepped {
    if !m.heap.contains_key(name) {
        Err(VmErrorModel::Name)
    } else {
        Ok((MachineModel { heap: m.heap.remove(name), ..m }, OutcomeModel::Continue))
    }
}

/// What a jump to `line` does: the instruction before `line` becomes the current one, so
/// that the next one to execute is the one at `line`.
pub open spec fn jump(m: MachineModel, line: usize) -> Stepped {
    if line == 0 {
        Err(VmErrorModel::Address)
    } else {
        Ok((MachineModel { pc: line - 1, ..m }, OutcomeModel::Continue))
    }
}

/// What a conditional jump does: it takes the top of the stack, which must stand for a
/// boolean, and jumps to `line` where that boolean is `when`.
pub open spec fn jump_if(m: MachineModel, line: usize, when: bool) -> Stepped {
    if m.stack.len() == 0 {
        Err(VmErrorModel::Stack)
    } else {
        match scalar_of(m.stack.last()) {
            Some(ValueTypeModel::Bool(b)) => {
                let popped = MachineModel { stack: m.stack.drop_last(), ..m };
                if b == when {
                    jump(popped, line)
                } else {
                    Ok((popped, OutcomeModel::Continue))
                }
            },
            _ => Err(VmErrorModel::Type),
        }
    }
}

/// What a call of the class `name` does: it takes the argument count and the arguments off
/// the stack and pushes the record made of them.
pub open spec fn call_class(m: MachineModel, name: Seq<char>) -> Stepped {
    match argument_count(m.stack) {
        Err(e) => Err(e),
        Ok(n) => match construct(m.classes[name], arguments(m.stack, n)) {
            Ok(o) => with_stack(m, below_arguments(m.stack, n).push(ValueModel::Object(o))),
            Err(e) => Err(e),
        },
    }
}

/// What `Call` does. A built-in name calls the built-in; else the name of a class
/// constructs a record; else the name of a function pushes the index of the current
/// instruction on the call stack and jumps to the function's entry.
pub open spec fn call(m: MachineModel, name: Seq<char>) -> Stepped {
    if is_builtin(name) {
        match call_builtin(m.stack, name) {
            Ok((stack, outcome)) => Ok((MachineModel { stack, ..m }, outcome)),
            Err(e) => Err(e),
        }
    } else if m.classes.contains_key(name) {
        call_class(m, name)
    } else if m.functions.contains_key(name) {
        jump(MachineModel { call_stack: m.call_stack.push(m.pc as usize), ..m }, m.functions[name])
    } else {
        Err(VmErrorModel::Name)
    }
}

/// What `Return` does: the call stack's top becomes the current instruction, so that the
/// next one to execute is the one after the call.
pub open spec fn ret(m: MachineModel) -> Stepped {
    if m.call_stack.len() == 0 {
        Err(VmErrorModel::Stack)
    } else {
        Ok(
            (
                MachineModel { pc: m.call_stack.last() as int, call_stack: m.call_stack.drop_last(), ..m },
                OutcomeModel::Continue,
            ),
        )
    }
}

/// What the instructions that only rearrange the stack do.
pub open spec fn shuffle(m: MachineModel, i: InstructionModel) -> Stepped {
    let n = m.stack.len() as int;
    match i {
        InstructionModel::Pop => if n < 1 {
            Err(VmErrorModel::Stack)
        } else {
            with_stack(m, m.stack.drop_last())
        },
        InstructionModel::Clone => if n < 1 {
            Err(VmErrorModel::Stack)
        } else {
            with_stack(m, m.stack.push(m.stack.last()))
        },
        InstructionModel::Swap => if n < 2 {
            Err(VmErrorModel::Stack)
        } else {
            with_stack(m, m.stack.take(n - 2).push(m.stack[n - 1]).push(m.stack[n - 2]))
        },
        InstructionModel::Rotate => if n < 3 {
            Err(VmErrorModel::Stack)
        } else {
            with_stack(
                m,
                m.stack.take(n - 3).push(m.stack[n - 2]).push(m.stack[n - 3]).push(m.stack[n - 1]),
            )
        },
        InstructionModel::MoveBack(amount) => if n <= amount {
            Err(VmErrorModel::Stack)
        } else {
            with_stack(m, m.stack.drop_last().insert(n - 1 - amount, m.stack.last()))
        },
        _ => with_stack(m, m.stack),
    }
}

/// The operator that an instruction applies, if it applies one.
pub open spec fn operator_of(i: InstructionModel) -> Option<BinaryOp> {
    match i {
        InstructionModel::Add => Some(BinaryOp::Add),
        InstructionModel::Sub => Some(BinaryOp::Sub),
        InstructionModel::Mul => Some(BinaryOp::Mul),
        InstructionModel::Div => Some(BinaryOp::Div),
        InstructionModel::Eq => Some(BinaryOp::Eq),
        InstructionModel::Neq => Some(BinaryOp::Neq),
        InstructionModel::Lt => Some(BinaryOp::Lt),
        InstructionModel::Gt => Some(BinaryOp::Gt),
        InstructionModel::LtEq => Some(BinaryOp::LtEq),
        InstructionModel::GtEq => Some(BinaryOp::GtEq),
        _ => None,
    }
}

/// What the instruction `i` does to the machine `m`, but for the move to the next
/// instruction.
pub open spec fn effect(m: MachineModel, i: InstructionModel) -> Stepped {
    match i {
        InstructionModel::Load(name) => load(m, name),
        InstructionModel::Store(name) => store(m, name),
        InstructionModel::NewVariable(name) => new_variable(m, name),
        InstructionModel::Delete(name) => delete(m, name),
        InstructionModel::Jump(line) => jump(m, line),
        InstructionModel::JumpIfFalse(line) => jump_if(m, line, false),
        InstructionModel::JumpIfTrue(line) => jump_if(m, line, true),
        InstructionModel::Call(name) => call(m, name),
        InstructionModel::Push(v) => with_stack(m, m.stack.push(ValueModel::Value(v))),
        InstructionModel::Return => ret(m),
        InstructionModel::Nop => with_stack(m, m.stack),
        InstructionModel::Pop | InstructionModel::Clone | InstructionModel::Swap
        | InstructionModel::Rotate | InstructionModel::MoveBack(_) => shuffle(m, i),
        _ => match operator_of(i) {
            Some(op) => binary(m, op),
            None => with_stack(m, m.stack),
        },
    }
}

/// Whether the machine has run past its last instruction.
pub open spec fn halted(m: MachineModel) -> bool {
    m.pc >= m.rom.len()
}

/// One step of the machine: the current instruction takes effect, and the instruction after
/// the current one becomes the current one. A machine that has halted stays as it is.
pub open spec fn step(m: MachineModel) -> Stepped {
    if halted(m) {
        Ok((m, OutcomeModel::Halted))
    } else {
        match effect(m, m.rom[m.pc]) {
            Ok((after, outcome)) => if after.pc >= usize::MAX {
                Err(VmErrorModel::Address)
            } else {
                Ok((MachineModel { pc: after.pc + 1, ..after }, outcome))
            },
            Err(e) => Err(e),
        }
    }
}

/// Whether a step that returned `r` and left the machine as `after` did what `expected`
/// says: after a failure the machine is in no stated condition.
pub open spec fn agrees(
    expected: Stepped,
    r: Result<StepOutcome, VmError>,
    after: MachineModel,
) -> bool {
    match expected {
        Ok((m, outcome)) => r matches Ok(x) && x@ == outcome && after == m,
        Err(e) => r matches Err(x) && x@ == e,
    }
}



impl VirtualMachine {
    /// A machine that is about to run `new_rom`: a `Nop` is put before the instructions, so
    /// that the instruction at address 1 is the first of them.
    pub fn new(
        new_rom: Vec<Instruction>,
        functions: StringHashMap<usize>,
        class_definitions: StringHashMap<ObjectCreator>,
    ) -> (r: Self)
        ensures
            r@ == started(new_rom@, functions@, class_definitions@),
    {
        let mut new_rom = new_rom;
        let mut rom: Vec<Instruction> = Vec::new();
        rom.push(Instruction::Nop);
        let ghost given = new_rom@;
        rom.append(&mut new_rom);
        let r = Self {
            stack: Vec::new(),
            rom,
            pc: 0,
            heap: StringHashMap::new(),
            functions,
            call_stack: Vec::new(),
            class_definitions,
        };
        assert(r@.rom =~= seq![InstructionModel::Nop] + code_model(given));
        assert(r@.stack =~= Seq::empty());
        assert(r@.heap =~= Map::empty());
        r
    }

    /// Runs the program `instructions` from its start for at most `limit` steps, and appends
    /// to `output` what it writes. Returns why the run came to a stop.
    pub fn emulate(
        instructions: Vec<Instruction>,
        functions: StringHashMap<usize>,
        classes: StringHashMap<ObjectCreator>,
        limit: usize,
        output: &mut String,
    ) -> (r: RunStop)
        ensures
            r@ == run(started(instructions@, functions@, classes@), limit as nat).stop,
            final(output)@ == old(output)@ + run(
                started(instructions@, functions@, classes@),
                limit as nat,
            ).output,
    {
        let mut machine = Self::new(instructions, functions, classes);
        machine.run(limit, output)
    }

    /// Whether the machine has run past its last instruction.
    pub fn halted(&self) -> (r: bool)
        ensures
            r == halted(self@),
    {
        self.pc >= self.rom.len()
    }

    /// The variables of the machine, by name.
    pub fn get_heap(&self) -> (r: &StringHashMap<Object>)
        ensures
            r == self.heap,
    {
        &self.heap
    }

    /// Pushes `value`: the way in which a driver hands back the result of a float operation.
    pub fn push_value(&mut self, value: ValueType)
        ensures
            final(self)@ == (MachineModel {
                stack: old(self)@.stack.push(ValueModel::Value(value@)),
                ..old(self)@
            }),
    {
        self.stack.push(Value::Value(value));
        assert(self@.stack =~= old(self)@.stack.push(ValueModel::Value(value@)));
    }

    fn binary(&mut self, op: BinaryOp) -> (r: Result<StepOutcome, VmError>)
        ensures
            agrees(binary(old(self)@, op), r, final(self)@),
    {
        if self.stack.len() < 2 {
            return Err(VmError::Stack);
        }
        let ghost before = self@.stack;
        let right = self.stack.pop().unwrap();
        let left = self.stack.pop().unwrap();
        assert(self@.stack =~= before.take(before.len() - 2));
        let rhs = match right.to_val() {
            Ok(v) => v,
            Err(e) => {
                return Err(e);
            },
        };
        let lhs = match left.to_val() {
            Ok(v) => v,
            Err(e) => {
                return Err(e);
            },
        };
        match apply(op, lhs, rhs) {
            Err(e) => Err(e),
            Ok(Computed::Value(v)) => {
                self.stack.push(Value::Value(v));
                assert(self@.stack =~= before.take(before.len() - 2).push(ValueModel::Value(v@)));
                Ok(StepOutcome::Continue)
            },
            Ok(Computed::Float(task)) => Ok(StepOutcome::Float(task)),
        }
    }

    fn load(&mut self, name: &str) -> (r: Result<StepOutcome, VmError>)
        ensures
            agrees(load(old(self)@, name@), r, final(self)@),
    {
        let (head, tail) = split_name(name);
        let ghost before = self@.stack;
        match self.heap.get(head.as_str()) {
            None => Err(VmError::Name),
            Some(object) => {
                let pushed = if tail.as_str().is_empty() {
                    match object.get_value() {
                        Ok(Some(t)) => Value::Value(t),
                        Ok(None) => Value::Object(copy_object(object)),
                        Err(e) => {
                            return Err(e);
                        },
                    }
                } else {
                    match object.get_member(tail.as_str()) {
                        Ok(t) => Value::Value(t),
                        Err(e) => {
                            return Err(e);
                        },
                    }
                };
                self.stack.push(pushed);
                assert(self@.stack =~= before.push(pushed@));
                Ok(StepOutcome::Continue)
            },
        }
    }

    fn store(&mut self, name: &str) -> (r: Result<StepOutcome, VmError>)
        ensures
            agrees(store(old(self)@, name@), r, final(self)@),
    {
        let (head, tail) = split_name(name);
        let ghost before = self@;
        let current = match self.heap.get(head.as_str()) {
            None => {
                return Err(VmError::Name);
            },
            Some(object) => copy_object(object),
        };
        let top = match self.stack.pop() {
            None => {
                return Err(VmError::Stack);
            },
            Some(v) => v,
        };
        assert(self@.stack =~= before.stack.drop_last());
        let changed = if tail.as_str().is_empty() {
            match top {
                Value::Value(v) => current.set_value(Value::Value(v)),
                Value::Object(o) => o,
            }
        } else {
            match current.set_member(tail, top) {
                Ok(o) => o,
                Err(e) => {
                    return Err(e);
                },
            }
        };
        self.heap.insert(head, changed);
        assert(self@.heap =~= before.heap.insert(head_of(name@), changed@));
        Ok(StepOutcome::Continue)
    }

    fn new_variable(&mut self, name: String) -> (r: Result<StepOutcome, VmError>)
        ensures
            agrees(new_variable(old(self)@, name@), r, final(self)@),
    {
        let ghost before = self@;
        let top = match self.stack.pop() {
            None => {
                return Err(VmError::Stack);
            },
            Some(v) => v,
        };
        assert(self@.stack =~= before.stack.drop_last());
        if self.heap.contains_key(name.as_str()) {
            return Err(VmError::Name);
        }
        let object = match top {
            Value::Value(v) => {
                let o = Object::new(String::new()).set_value(Value::Value(v));
                assert(o@.members =~= seq![(value_key(), top@)]);
                o
            },
            Value::Object(o) => o,
        };
        self.heap.insert(name, object);
        assert(self@.heap =~= before.heap.insert(name@, object@));
        Ok(StepOutcome::Continue)
    }

    fn delete(&mut self, name: &str) -> (r: Result<StepOutcome, VmError>)
        ensures
            agrees(delete(old(self)@, name@), r, final(self)@),
    {
        let ghost before = self@;
        if !self.heap.contains_key(name) {
            return Err(VmError::Name);
        }
        self.heap.remove(name);
        assert(self@.heap =~= before.heap.remove(name@));
        Ok(StepOutcome::Continue)
    }

    fn jump(&mut self, line: usize) -> (r: Result<StepOutcome, VmError>)
        ensures
            agrees(jump(old(self)@, line), r, final(self)@),
    {
        if line == 0 {
            return Err(VmError::Address);
        }
        self.pc = line - 1;
        Ok(StepOutcome::Continue)
    }

    fn jump_if(&mut self, line: usize, when: bool) -> (r: Result<StepOutcome, VmError>)
        ensures
            agrees(jump_if(old(self)@, line, when), r, final(self)@),
    {
        let ghost before = self@;
        let top = match self.stack.pop() {
            None => {
                return Err(VmError::Stack);
            },
            Some(v) => v,
        };
        assert(self@.stack =~= before.stack.drop_last());
        match top.to_val() {
            Ok(ValueType::Bool(b)) => {
                if b.value == when {
                    self.jump(line)
                } else {
                    Ok(StepOutcome::Continue)
                }
            },
            _ => Err(VmError::Type),
        }
    }

    fn class_call(&mut self, name: &str) -> (r: Result<StepOutcome, VmError>)
        requires
            old(self)@.classes.contains_key(name@),
        ensures
            agrees(call_class(old(self)@, name@), r, final(self)@),
    {
        let ghost before = self@;
        let args = match take_arguments(&mut self.stack) {
            Ok(args) => args,
            Err(e) => {
                return Err(e);
            },
        };
        let ghost below = self@.stack;
        match self.class_definitions.get(name) {
            None => Err(VmError::Name),
            Some(creator) => match creator.create(args) {
                Ok(object) => {
                    self.stack.push(Value::Object(object));
                    assert(self@.stack =~= below.push(ValueModel::Object(object@)));
                    Ok(StepOutcome::Continue)
                },
                Err(e) => Err(e),
            },
        }
    }

    fn call(&mut self, name: &str) -> (r: Result<StepOutcome, VmError>)
        ensures
            agrees(call(old(self)@, name@), r, final(self)@),
    {
        let ghost before = self@;
        if builtin_name(name) {
            let args = match take_arguments(&mut self.stack) {
                Ok(args) => args,
                Err(e) => {
                    return Err(e);
                },
            };
            let ghost below = self@.stack;
            match run_builtin(name, args) {
                Ok((pushed, outcome)) => {
                    let mut pushed = pushed;
                    let ghost more = values_model(pushed@);
                    self.stack.append(&mut pushed);
                    assert(self@.stack =~= below + more);
                    Ok(outcome)
                },
                Err(e) => Err(e),
            }
        } else if self.class_definitions.contains_key(name) {
            self.class_call(name)
        } else {
            match self.functions.get(name) {
                Some(line) => {
                    let line = *line;
                    self.call_stack.push(self.pc);
                    self.jump(line)
                },
                None => Err(VmError::Name),
            }
        }
    }

    fn ret(&mut self) -> (r: Result<StepOutcome, VmError>)
        ensures
            agrees(ret(old(self)@), r, final(self)@),
    {
        match self.call_stack.pop() {
            Some(line) => {
                self.pc = line;
                Ok(StepOutcome::Continue)
            },
            None => Err(VmError::Stack),
        }
    }

    fn shuffle(&mut self, instruction: &Instruction) -> (r: Result<StepOutcome, VmError>)
        ensures
            agrees(shuffle(old(self)@, instruction@), r, final(self)@),
    {
        let ghost before = self@.stack;
        let n = self.stack.len();
        match instruction {
            Instruction::Pop => {
                if n < 1 {
                    return Err(VmError::Stack);
                }
                self.stack.pop();
                assert(self@.stack =~= before.drop_last());
            },
            Instruction::Clone => {
                if n < 1 {
                    return Err(VmError::Stack);
                }
                let copy = copy_value(&self.stack[n - 1]);
                self.stack.push(copy);
                assert(self@.stack =~= before.push(before.last()));
            },
            Instruction::Swap => {
                if n < 2 {
                    return Err(VmError::Stack);
                }
                let rhs = self.stack.pop().unwrap();
                let lhs = self.stack.pop().unwrap();
                self.stack.push(rhs);
                self.stack.push(lhs);
                assert(self@.stack =~= before.take(n - 2).push(before[n - 1]).push(before[n - 2]));
            },
            Instruction::Rotate => {
                if n < 3 {
                    return Err(VmError::Stack);
                }
                let rhs = self.stack.pop().unwrap();
                let mid = self.stack.pop().unwrap();
                let lhs = self.stack.pop().unwrap();
                self.stack.push(mid);
                self.stack.push(lhs);
                self.stack.push(rhs);
                assert(self@.stack =~= before.take(n - 3).push(before[n - 2]).push(
                    before[n - 3],
                ).push(before[n - 1]));
            },
            Instruction::MoveBack(amount) => {
                if n <= *amount {
                    return Err(VmError::Stack);
                }
                let top = self.stack.pop().unwrap();
                self.stack.insert(n - 1 - *amount, top);
                assert(self@.stack =~= before.drop_last().insert(n - 1 - *amount, before.last()));
            },
            _ => {
                assert(self@.stack =~= before);
            },
        }
        Ok(StepOutcome::Continue)
    }

    /// Carries out `instruction`, but for the move to the next instruction.
    pub fn single_run(&mut self, instruction: Instruction) -> (r: Result<StepOutcome, VmError>)
        ensures
            agrees(effect(old(self)@, instruction@), r, final(self)@),
    {
        let ghost before = self@.stack;
        match instruction {
            Instruction::Add => self.binary(BinaryOp::Add),
            Instruction::Sub => self.binary(BinaryOp::Sub),
            Instruction::Mul => self.binary(BinaryOp::Mul),
            Instruction::Div => self.binary(BinaryOp::Div),
            Instruction::Eq => self.binary(BinaryOp::Eq),
            Instruction::Neq => self.binary(BinaryOp::Neq),
            Instruction::Lt => self.binary(BinaryOp::Lt),
            Instruction::Gt => self.binary(BinaryOp::Gt),
            Instruction::LtEq => self.binary(BinaryOp::LtEq),
            Instruction::GtEq => self.binary(BinaryOp::GtEq),
            Instruction::Load(name) => self.load(name.as_str()),
            Instruction::Store(name) => self.store(name.as_str()),
            Instruction::NewVariable(name) => self.new_variable(name),
            Instruction::Delete(name) => self.delete(name.as_str()),
            Instruction::Jump(line) => self.jump(line),
            Instruction::JumpIfFalse(line) => self.jump_if(line, false),
            Instruction::JumpIfTrue(line) => self.jump_if(line, true),
            Instruction::Call(name) => self.call(name.as_str()),
            Instruction::Push(value) => {
                self.stack.push(Value::Value(value));
                assert(self@.stack =~= before.push(ValueModel::Value(value@)));
                Ok(StepOutcome::Continue)
            },
            Instruction::Return => self.ret(),
            Instruction::Nop => {
                assert(self@.stack =~= before);
                Ok(StepOutcome::Continue)
            },
            Instruction::Pop => self.shuffle(&Instruction::Pop),
            Instruction::Clone => self.shuffle(&Instruction::Clone),
            Instruction::Swap => self.shuffle(&Instruction::Swap),
            Instruction::Rotate => self.shuffle(&Instruction::Rotate),
            Instruction::MoveBack(amount) => self.shuffle(&Instruction::MoveBack(amount)),
        }
    }

    /// One step: the current instruction takes effect, and the one after it becomes the
    /// current one. Returns what is left to the driver. After a failure the machine is in no
    /// stated condition.
    pub fn step(&mut self) -> (r: Result<StepOutcome, VmError>)
        ensures
            agrees(step(old(self)@), r, final(self)@),
    {
        if self.pc >= self.rom.len() {
            return Ok(StepOutcome::Halted);
        }
        let instruction = self.rom[self.pc].clone();
        match self.single_run(instruction) {
            Err(e) => Err(e),
            Ok(outcome) => {
                if self.pc == usize::MAX {
                    return Err(VmError::Address);
                }
                self.pc += 1;
                Ok(outcome)
            },
        }
    }
}



/// Why a run of the machine came to a stop.
#[derive(Debug, PartialEq)]
pub enum RunStop {
    /// The machine ran past its last instruction.
    Halted,
    /// The machine took as many steps as it was allowed.
    OutOfSteps,
    /// A float operation is left to the driver, which pushes its result and runs on.
    Float(FloatTask),
    /// A step failed. The machine is in no stated condition.
    Failed(VmError),
}

/// A [`RunStop`] as a mathematical value.
pub enum StopModel {
    Halted,
    OutOfSteps,
    Float(FloatTaskModel),
    Failed(VmErrorModel),
}

impl View for RunStop {
    type V = StopModel;

    open spec fn view(&self) -> StopModel {
        match self {
            RunStop::Halted => StopModel::Halted,
            RunStop::OutOfSteps => StopModel::OutOfSteps,
            RunStop::Float(t) => StopModel::Float(t@),
            RunStop::Failed(e) => StopModel::Failed(e@),
        }
    }
}

/// A run of the machine: the machine at its end, the text written meanwhile, and why it
/// came to a stop.
pub struct RunModel {
    pub machine: MachineModel,
    pub output: Seq<char>,
    pub stop: StopModel,
}

/// A run of at most `limit` steps from `m`: step after step until the machine halts, fails
/// or leaves a float operation to the driver. For a run that fails, `machine` is the machine
/// before the step that failed.
pub open spec fn run(m: MachineModel, limit: nat) -> RunModel
    decreases limit,
{
    if halted(m) {
        RunModel { machine: m, output: Seq::empty(), stop: StopModel::Halted }
    } else if limit == 0 {
        RunModel { machine: m, output: Seq::empty(), stop: StopModel::OutOfSteps }
    } else {
        match step(m) {
            Err(e) => RunModel { machine: m, output: Seq::empty(), stop: StopModel::Failed(e) },
            Ok((next, OutcomeModel::Float(task))) => RunModel {
                machine: next,
                output: Seq::empty(),
                stop: StopModel::Float(task),
            },
            Ok((next, OutcomeModel::Output(text))) => {
                let rest = run(next, (limit - 1) as nat);
                RunModel { output: text + rest.output, ..rest }
            },
            Ok((next, _)) => run(next, (limit - 1) as nat),
        }
    }
}

impl VirtualMachine {
    /// Runs the machine for at most `limit` steps, and appends to `output` what the program
    /// writes meanwhile. Returns why the run came to a stop.
    pub fn run(&mut self, limit: usize, output: &mut String) -> (r: RunStop)
        ensures
            r@ == run(old(self)@, limit as nat).stop,
            final(output)@ == old(output)@ + run(old(self)@, limit as nat).output,
            !(r is Failed) ==> final(self)@ == run(old(self)@, limit as nat).machine,
    {
        let ghost start = self@;
        let ghost whole = run(start, limit as nat);
        let mut left: usize = limit;
        loop
            invariant
                start == old(self)@,
                whole == run(start, limit as nat),
                whole.stop == run(self@, left as nat).stop,
                !(whole.stop is Failed) ==> whole.machine == run(self@, left as nat).machine,
                old(output)@ + whole.output == output@ + run(self@, left as nat).output,
            decreases left,
        {
            if self.halted() {
                assert(output@ + Seq::<char>::empty() =~= output@);
                return RunStop::Halted;
            }
            if left == 0 {
                assert(output@ + Seq::<char>::empty() =~= output@);
                return RunStop::OutOfSteps;
            }
            let ghost here = self@;
            let ghost written = output@;
            match self.step() {
                Err(e) => {
                    assert(output@ + Seq::<char>::empty() =~= output@);
                    return RunStop::Failed(e);
                },
                Ok(StepOutcome::Float(task)) => {
                    assert(output@ + Seq::<char>::empty() =~= output@);
                    return RunStop::Float(task);
                },
                Ok(StepOutcome::Output(text)) => {
                    output.append(text.as_str());
                    left = left - 1;
                    assert(written + (text@ + run(self@, left as nat).output) =~= output@ + run(
                        self@,
                        left as nat,
                    ).output);
                },
                Ok(_) => {
                    left = left - 1;
                },
            }
        }
    }
}



/// A step that executes `Return` takes exactly one address off the call stack, and the
/// instruction to execute next is the one after that address. It fails only on an empty call
/// stack, or on an address after which there is none.
pub proof fn law_return(m: MachineModel)
    requires
        !halted(m),
        0 <= m.pc,
        m.rom[m.pc] == InstructionModel::Return,
    ensures
        match step(m) {
            Ok((after, outcome)) => {
                &&& m.call_stack.len() > 0
                &&& after.call_stack == m.call_stack.drop_last()
                &&& after.call_stack.len() == m.call_stack.len() - 1
                &&& after.pc == m.call_stack.last() + 1
                &&& after.stack == m.stack
                &&& after.heap == m.heap
                &&& outcome == OutcomeModel::Continue
            },
            Err(e) => if m.call_stack.len() == 0 {
                e == VmErrorModel::Stack
            } else {
                e == VmErrorModel::Address && m.call_stack.last() == usize::MAX
            },
        },
{
}

/// A call of a function and the `Return` that answers it: the call pushes the address of
/// the `Call` instruction and goes to the function's entry, and a `Return` that finds the call
/// stack as the call left it restores the call stack and goes to the instruction after the
/// `Call`.
pub proof fn law_call_then_return(m: MachineModel, name: Seq<char>, at_return: MachineModel)
    requires
        !halted(m),
        0 <= m.pc,
        m.rom[m.pc] == InstructionModel::Call(name),
        !is_builtin(name),
        !m.classes.contains_key(name),
        m.functions.contains_key(name),
        m.functions[name] != 0,
        m.rom.len() <= usize::MAX,
        !halted(at_return),
        0 <= at_return.pc,
        at_return.rom[at_return.pc] == InstructionModel::Return,
        at_return.call_stack == m.call_stack.push(m.pc as usize),
    ensures
        step(m) matches Ok((called, _)) && {
            &&& called.pc == m.functions[name]
            &&& called.call_stack == m.call_stack.push(m.pc as usize)
            &&& called.stack == m.stack
        },
        step(at_return) matches Ok((back, _)) && {
            &&& back.pc == m.pc + 1
            &&& back.call_stack == m.call_stack
        },
{
    assert(m.call_stack.push(m.pc as usize).drop_last() =~= m.call_stack);
}

/// `NewVariable` and then `Load` of the same name leave the stack as it was: the value that
/// became the variable is on top again. This holds of a name without a period, and of a
/// plain value or a record without the member `__value__`.
pub proof fn law_new_variable_then_load(m: MachineModel, name: Seq<char>)
    requires
        m.stack.len() > 0,
        !m.heap.contains_key(name),
        !has_dot(name),
        match m.stack.last() {
            ValueModel::Value(_) => true,
            ValueModel::Object(o) => lookup(o.members, value_key()) is None,
        },
    ensures
        new_variable(m, name) matches Ok((made, _)) && {
            &&& made.heap == m.heap.insert(name, boxed(m.stack.last()))
            &&& made.stack == m.stack.drop_last()
            &&& load(made, name) matches Ok((loaded, _)) && {
                &&& loaded.stack == m.stack
                &&& loaded.heap == made.heap
            }
        },
{
    let top = m.stack.last();
    let made = new_variable(m, name)->Ok_0.0;
    crate::text::lemma_first_index_bounds(name, '.', 0);
    assert(head_of(name) =~= name);
    assert(tail_of(name) =~= Seq::<char>::empty());
    assert(made.heap.contains_key(name));
    assert(made.heap[name] == boxed(top));
    assert(m.stack.drop_last().push(top) =~= m.stack);
    match top {
        ValueModel::Value(t) => {
            let members = seq![(value_key(), top)];
            assert(members[0].0 == value_key());
            assert(crate::value::member_index(members, value_key(), 0) == 0);
        },
        ValueModel::Object(o) => {},
    }
}



/// `NewVariable` and then `Delete` of the same name leave the variables as they were.
pub proof fn law_new_variable_then_delete(m: MachineModel, name: Seq<char>)
    requires
        m.stack.len() > 0,
        !m.heap.contains_key(name),
    ensures
        new_variable(m, name) matches Ok((made, _)) && delete(made, name) matches Ok((after, _)) && {
            &&& after.heap == m.heap
            &&& after.stack == m.stack.drop_last()
        },
{
    let made = new_variable(m, name)->Ok_0.0;
    assert(made.heap.remove(name) =~= m.heap);
}

/// The variables once the first `n` of `names` are made, each with the record at its place
/// in `records`.
pub open spec fn introduced(
    heap: Map<Seq<char>, ObjectModel>,
    names: Seq<Seq<char>>,
    records: Seq<ObjectModel>,
    n: int,
) -> Map<Seq<char>, ObjectModel>
    decreases n,
{
    if n <= 0 || n > names.len() || n > records.len() {
        heap
    } else {
        introduced(heap, names, records, n - 1).insert(names[n - 1], records[n - 1])
    }
}

/// The variables once the first `n` of `names` are deleted.
pub open spec fn discarded(heap: Map<Seq<char>, ObjectModel>, names: Seq<Seq<char>>, n: int) -> Map<
    Seq<char>,
    ObjectModel,
>
    decreases n,
{
    if n <= 0 || n > names.len() {
        heap
    } else {
        discarded(heap, names, n - 1).remove(names[n - 1])
    }
}

proof fn lemma_introduced(
    heap: Map<Seq<char>, ObjectModel>,
    names: Seq<Seq<char>>,
    records: Seq<ObjectModel>,
    n: int,
    key: Seq<char>,
)
    requires
        0 <= n <= names.len(),
        names.len() == records.len(),
    ensures
        introduced(heap, names, records, n).contains_key(key) <==> heap.contains_key(key) || exists|
            i: int,
        | 0 <= i < n && names[i] == key,
        (forall|i: int| 0 <= i < n ==> names[i] != key) ==> introduced(heap, names, records, n)[key]
            == heap[key],
    decreases n,
{
    if n > 0 {
        lemma_introduced(heap, names, records, n - 1, key);
        if names[n - 1] == key {
            assert(0 <= n - 1 < n && names[n - 1] == key);
        }
    }
}

proof fn lemma_discarded(heap: Map<Seq<char>, ObjectModel>, names: Seq<Seq<char>>, n: int, key: Seq<char>)
    requires
        0 <= n <= names.len(),
    ensures
        discarded(heap, names, n).contains_key(key) <==> heap.contains_key(key) && forall|i: int|
            0 <= i < n ==> names[i] != key,
        discarded(heap, names, n).contains_key(key) ==> discarded(heap, names, n)[key] == heap[key],
    decreases n,
{
    if n > 0 {
        lemma_discarded(heap, names, n - 1, key);
    }
}

/// A block leaves the variables as it found them: once the variables that the block
/// introduces are made and then deleted, as the code of a block does at its end, the
/// variables are those from before the block.
pub proof fn law_block_restores_variables(
    heap: Map<Seq<char>, ObjectModel>,
    names: Seq<Seq<char>>,
    records: Seq<ObjectModel>,
)
    requires
        names.len() == records.len(),
        forall|i: int| 0 <= i < names.len() ==> !heap.contains_key(#[trigger] names[i]),
    ensures
        discarded(
            introduced(heap, names, records, names.len() as int),
            names,
            names.len() as int,
        ) == heap,
{
    let n = names.len() as int;
    let full = introduced(heap, names, records, n);
    let after = discarded(full, names, n);
    assert forall|key: Seq<char>| after.contains_key(key) <==> heap.contains_key(key) by {
        lemma_introduced(heap, names, records, n, key);
        lemma_discarded(full, names, n, key);
    }
    assert forall|key: Seq<char>| after.contains_key(key) implies after[key] == heap[key] by {
        lemma_introduced(heap, names, records, n, key);
        lemma_discarded(full, names, n, key);
    }
    assert(after =~= heap);
}



/// The machine after `n` steps from `m` that each leave nothing to the driver; `None` where
/// one of them fails or leaves something, or the machine halts before.
pub open spec fn after_steps(m: MachineModel, n: nat) -> Option<MachineModel>
    decreases n,
{
    if n == 0 {
        Some(m)
    } else {
        match after_steps(m, (n - 1) as nat) {
            Some(before) => match step(before) {
                Ok((next, OutcomeModel::Continue)) => Some(next),
                _ => None,
            },
            None => None,
        }
    }
}

proof fn lemma_discarded_keeps(heap: Map<Seq<char>, ObjectModel>, names: Seq<Seq<char>>, n: int, i: int)
    requires
        0 <= n <= i < names.len(),
        heap.contains_key(names[i]),
        forall|a: int, b: int| 0 <= a < b < names.len() ==> names[a] != names[b],
    ensures
        discarded(heap, names, n).contains_key(names[i]),
    decreases n,
{
    if n > 0 {
        lemma_discarded_keeps(heap, names, n - 1, i);
    }
}

/// The `Delete` instructions at the end of a block delete the variables of the block: a
/// machine that stands before a run of `Delete` instructions for variables that exist,
/// each named once, has after as many steps those variables deleted and nothing else
/// changed, and stands after the run.
pub proof fn law_deletes_delete(m: MachineModel, names: Seq<Seq<char>>, n: int)
    requires
        0 <= n <= names.len(),
        0 <= m.pc,
        m.pc + names.len() <= m.rom.len(),
        m.rom.len() <= usize::MAX,
        forall|i: int| 0 <= i < names.len() ==> m.rom[m.pc + i] == InstructionModel::Delete(names[i]),
        forall|i: int| 0 <= i < names.len() ==> m.heap.contains_key(names[i]),
        forall|a: int, b: int| 0 <= a < b < names.len() ==> names[a] != names[b],
    ensures
        after_steps(m, n as nat) == Some(
            MachineModel { pc: m.pc + n, heap: discarded(m.heap, names, n), ..m },
        ),
    decreases n,
{
    if n > 0 {
        law_deletes_delete(m, names, n - 1);
        let before = MachineModel { pc: m.pc + n - 1, heap: discarded(m.heap, names, n - 1), ..m };
        lemma_discarded_keeps(m.heap, names, n - 1, n - 1);
        assert(before.rom[before.pc] == InstructionModel::Delete(names[n - 1]));
        assert(!halted(before));
    }
}

/// Leaving a loop, or taking it up again, leaves none of its variables: a machine that
/// stands before a run of `Delete` instructions for variables that exist, each named once,
/// and the `Jump` that follows them, has after as many steps and one more those variables
/// deleted and nothing else changed, and stands at the address of the jump.
pub proof fn law_deletes_then_jump(m: MachineModel, names: Seq<Seq<char>>, line: usize)
    requires
        0 <= m.pc,
        m.pc + names.len() < m.rom.len(),
        m.rom.len() <= usize::MAX,
        forall|i: int| 0 <= i < names.len() ==> m.rom[m.pc + i] == InstructionModel::Delete(names[i]),
        m.rom[m.pc + names.len()] == InstructionModel::Jump(line),
        line != 0,
        forall|i: int| 0 <= i < names.len() ==> m.heap.contains_key(names[i]),
        forall|a: int, b: int| 0 <= a < b < names.len() ==> names[a] != names[b],
    ensures
        after_steps(m, names.len() + 1) == Some(
            MachineModel { pc: line as int, heap: discarded(m.heap, names, names.len() as int), ..m },
        ),
{
    let n = names.len() as int;
    law_deletes_delete(m, names, n);
    let before = MachineModel { pc: m.pc + n, heap: discarded(m.heap, names, n), ..m };
    assert(after_steps(m, n as nat) == Some(before));
    assert(before.rom[before.pc] == InstructionModel::Jump(line));
    assert(!halted(before));
    assert(step(before) == Ok::<(MachineModel, OutcomeModel), VmErrorModel>(
        (MachineModel { pc: line as int, ..before }, OutcomeModel::Continue),
    ));
    assert(after_steps(m, (n + 1) as nat) == Some(MachineModel { pc: line as int, ..before }));
}

/// Returning from a function leaves none of its variables: a machine in a call that stands
/// before a run of `Delete` instructions for variables that exist, each named once, and the
/// `Return` that follows them, has after as many steps and one more those variables
/// deleted, the call taken off the call stack and nothing else changed, and stands after
/// the call.
pub proof fn law_deletes_then_return(m: MachineModel, names: Seq<Seq<char>>)
    requires
        0 <= m.pc,
        m.pc + names.len() < m.rom.len(),
        m.rom.len() <= usize::MAX,
        forall|i: int| 0 <= i < names.len() ==> m.rom[m.pc + i] == InstructionModel::Delete(names[i]),
        m.rom[m.pc + names.len()] == InstructionModel::Return,
        m.call_stack.len() > 0,
        m.call_stack.last() < usize::MAX,
        forall|i: int| 0 <= i < names.len() ==> m.heap.contains_key(names[i]),
        forall|a: int, b: int| 0 <= a < b < names.len() ==> names[a] != names[b],
    ensures
        after_steps(m, names.len() + 1) == Some(
            MachineModel {
                pc: m.call_stack.last() + 1,
                heap: discarded(m.heap, names, names.len() as int),
                call_stack: m.call_stack.drop_last(),
                ..m
            },
        ),
{
    let n = names.len() as int;
    law_deletes_delete(m, names, n);
    let before = MachineModel { pc: m.pc + n, heap: discarded(m.heap, names, n), ..m };
    assert(after_steps(m, n as nat) == Some(before));
    assert(before.rom[before.pc] == InstructionModel::Return);
    assert(!halted(before));
    let after = MachineModel {
        pc: m.call_stack.last() + 1,
        call_stack: m.call_stack.drop_last(),
        ..before
    };
    assert(step(before) == Ok::<(MachineModel, OutcomeModel), VmErrorModel>(
        (after, OutcomeModel::Continue),
    ));
    assert(after_steps(m, (n + 1) as nat) == Some(after));
}

} // verus!
