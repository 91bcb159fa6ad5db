//! The resolution of labels to addresses, and the compilation of a whole program.

use crate::error::CompileError;
use crate::instruction_compiler::floats_model;
use crate::instruction_compiler::functions_model;
use crate::instruction_compiler::lower_block;
use crate::instruction_compiler::outermost;
use crate::instruction_compiler::CompilerModel;
use crate::instruction_compiler::FloatLiteral;
use crate::instruction_compiler::InstructionCompiler;
use crate::instruction_compiler::Scope;
use crate::parser::block_model;
use crate::parser::Statement;
use crate::parser::StatementModel;
use crate::value::CreatorModel;
use crate::value::FloatModel;
use crate::value::ObjectCreator;
use crate::virtual_machine::classes_model;
use vstd::hash_map::StringHashMap;
use crate::instruction::code_model;
use crate::instruction::Instruction;
use crate::instruction::InstructionModel;
use crate::instruction_compiler::translations_model;
use crate::instruction_compiler::JumpKind;
use crate::instruction_compiler::Translation;
use crate::instruction_compiler::TranslationModel;
use std::collections::HashMap;
use vstd::prelude::*;

verus! {

broadcast use vstd::std_specs::hash::group_hash_axioms;

/// The number of items among the first `n` of `code` that are no labels.
pub open spec fn code_count(code: Seq<TranslationModel>, n: int) -> int
    decreases n,
{
    if n <= 0 || n > code.len() {
        0
    } else if code[n - 1] is Label {
        code_count(code, n - 1)
    } else {
        code_count(code, n - 1) + 1
    }
}

/// The address of each label that stands among the first `n` items of `code`: one more than
/// the number of items before it that are no labels, which is the address of the
/// instruction after the label once a `Nop` stands before the code. Of a label that stands
/// twice, the last place counts.
pub open spec fn label_table(code: Seq<TranslationModel>, n: int) -> Map<usize, int>
    decreases n,
{
    if n <= 0 || n > code.len() {
        Map::empty()
    } else {
        match code[n - 1] {
            TranslationModel::Label(id) => label_table(code, n - 1).insert(
                id,
                code_count(code, n - 1) + 1,
            ),
            _ => label_table(code, n - 1),
        }
    }
}

/// The jump instruction of the kind `kind` to `address`.
pub open spec fn jump_instruction(kind: JumpKind, address: usize) -> InstructionModel {
    match kind {
        JumpKind::Always => InstructionModel::Jump(address),
        JumpKind::IfTrue => InstructionModel::JumpIfTrue(address),
        JumpKind::IfFalse => InstructionModel::JumpIfFalse(address),
    }
}

/// The instructions for the first `n` items of `code`: labels leave nothing, instructions
/// stay, and a jump to a label becomes a jump to the address that `labels` gives it.
pub open spec fn resolved(code: Seq<TranslationModel>, labels: Map<usize, int>, n: int) -> Result<
    Seq<InstructionModel>,
    CompileError,
>
    decreases n,
{
    if n <= 0 || n > code.len() {
        Ok(Seq::empty())
    } else {
        match resolved(code, labels, n - 1) {
            Err(e) => Err(e),
            Ok(before) => match code[n - 1] {
                TranslationModel::Label(_) => Ok(before),
                TranslationModel::Instruction(i) => Ok(before.push(i)),
                TranslationModel::Jump(kind, id) => if labels.contains_key(id) {
                    Ok(before.push(jump_instruction(kind, labels[id] as usize)))
                } else {
                    Err(CompileError::UnresolvedLabel)
                },
            },
        }
    }
}

/// The instructions of `code` with every label resolved to its address.
pub open spec fn resolve(code: Seq<TranslationModel>) -> Result<Seq<InstructionModel>, CompileError> {
    resolved(code, label_table(code, code.len() as int), code.len() as int)
}

/// The addresses in `labels` as mathematical integers.
pub open spec fn addresses(labels: Map<usize, usize>) -> Map<usize, int> {
    Map::new(|k: usize| labels.contains_key(k), |k: usize| labels[k] as int)
}

/// Among `n` items there are at most `n` that are no labels.
pub proof fn lemma_code_count_bounds(code: Seq<TranslationModel>, n: int)
    requires
        0 <= n <= code.len(),
    ensures
        0 <= code_count(code, n) <= n,
    decreases n,
{
    if n > 0 {
        lemma_code_count_bounds(code, n - 1);
    }
}

/// Where resolving the first `n` items fails, resolving more of them fails in the same way.
pub proof fn lemma_resolved_fails(code: Seq<TranslationModel>, labels: Map<usize, int>, n: int, m: int)
    requires
        0 < n <= m <= code.len(),
        resolved(code, labels, n) is Err,
    ensures
        resolved(code, labels, m) == resolved(code, labels, n),
    decreases m - n,
{
    if n < m {
        lemma_resolved_fails(code, labels, n, m - 1);
    }
}

/// The address of each label of `code`.
pub fn find_labels(code: &Vec<Translation>) -> (labels: HashMap<usize, usize>)
    ensures
        addresses(labels@) == label_table(translations_model(code@), code.len() as int),
{
    let ghost items = translations_model(code@);
    let mut labels: HashMap<usize, usize> = HashMap::new();
    let mut count: usize = 0;
    let mut i: usize = 0;
    assert(addresses(labels@) =~= label_table(items, 0));
    while i < code.len()
        invariant
            i <= code.len(),
            items == translations_model(code@),
            count == code_count(items, i as int),
            count <= i,
            addresses(labels@) == label_table(items, i as int),
        decreases code.len() - i,
    {
        let ghost before = labels@;
        match &code[i] {
            Translation::Label(id) => {
                labels.insert(*id, count + 1);
                assert(addresses(labels@) =~= addresses(before).insert(*id, count + 1));
            },
            _ => {
                count = count + 1;
            },
        }
        i += 1;
    }
    labels
}

fn jump_to(kind: JumpKind, address: usize) -> (r: Instruction)
    ensures
        r@ == jump_instruction(kind, address),
{
    match kind {
        JumpKind::Always => Instruction::Jump(address),
        JumpKind::IfTrue => Instruction::JumpIfTrue(address),
        JumpKind::IfFalse => Instruction::JumpIfFalse(address),
    }
}

/// The instructions of `code` with every jump resolved by `labels`.
pub fn resolve_with(code: Vec<Translation>, labels: &HashMap<usize, usize>) -> (r: Result<
    Vec<Instruction>,
    CompileError,
>)
    ensures
        match resolved(translations_model(code@), addresses(labels@), code.len() as int) {
            Ok(instructions) => r matches Ok(v) && code_model(v@) == instructions,
            Err(e) => r matches Err(x) && x == e,
        },
{
    let ghost items = translations_model(code@);
    let ghost table = addresses(labels@);
    let mut out: Vec<Instruction> = Vec::new();
    let mut i: usize = 0;
    assert(code_model(out@) =~= Seq::empty());
    while i < code.len()
        invariant
            i <= code.len(),
            items == translations_model(code@),
            table == addresses(labels@),
            resolved(items, table, i as int) == Ok::<Seq<InstructionModel>, CompileError>(
                code_model(out@),
            ),
        decreases code.len() - i,
    {
        let ghost before = code_model(out@);
        match &code[i] {
            Translation::Label(_) => {},
            Translation::Instruction(instruction) => {
                out.push(instruction.clone());
                assert(code_model(out@) =~= before.push(instruction@));
            },
            Translation::Jump(kind, id) => match labels.get(id) {
                Some(address) => {
                    let jump = jump_to(*kind, *address);
                    out.push(jump);
                    assert(code_model(out@) =~= before.push(jump@));
                },
                None => {
                    proof {
                        lemma_resolved_fails(items, table, i as int + 1, code.len() as int);
                    }
                    return Err(CompileError::UnresolvedLabel);
                },
            },
        }
        i += 1;
    }
    Ok(out)
}



/// The address of each of the first `n` of `functions`: that of the label of its entry.
pub open spec fn function_table(functions: Seq<(Seq<char>, usize)>, labels: Map<usize, int>, n: int) -> Result<
    Map<Seq<char>, usize>,
    CompileError,
>
    decreases n,
{
    if n <= 0 || n > functions.len() {
        Ok(Map::empty())
    } else {
        match function_table(functions, labels, n - 1) {
            Err(e) => Err(e),
            Ok(table) => if labels.contains_key(functions[n - 1].1) {
                Ok(table.insert(functions[n - 1].0, labels[functions[n - 1].1] as usize))
            } else {
                Err(CompileError::UnresolvedLabel)
            },
        }
    }
}

/// Where the first `n` functions have no table, no longer run of them has one.
pub proof fn lemma_function_table_fails(
    functions: Seq<(Seq<char>, usize)>,
    labels: Map<usize, int>,
    n: int,
    m: int,
)
    requires
        0 < n <= m <= functions.len(),
        function_table(functions, labels, n) is Err,
    ensures
        function_table(functions, labels, m) == function_table(functions, labels, n),
    decreases m - n,
{
    if n < m {
        lemma_function_table_fails(functions, labels, n, m - 1);
    }
}

/// A compiled program: its instructions, the address of each function, and its classes.
pub struct ProgramModel {
    pub instructions: Seq<InstructionModel>,
    pub functions: Map<Seq<char>, usize>,
    pub classes: Map<Seq<char>, CreatorModel>,
}

/// The compiler before it has compiled anything.
pub open spec fn fresh() -> CompilerModel {
    CompilerModel { label_count: 0, functions: Seq::empty(), classes: Map::empty() }
}

/// What a compiler in the state `c` gives for the program `statements`: the code of the
/// block of its statements with the labels resolved, the address of the entry of each
/// function that the compiler knows afterwards, and its classes. A function that `c` held
/// before has its entry in other code, so a compiler that holds one fails with
/// `UnresolvedLabel` unless this program places a label of the same number.
pub open spec fn compile_from(
    c: CompilerModel,
    statements: Seq<StatementModel>,
    floats: Seq<(Seq<char>, FloatModel)>,
) -> Result<ProgramModel, CompileError> {
    match lower_block(c, statements, outermost(), floats) {
        Err(e) => Err(e),
        Ok((c, code)) => match resolve(code) {
            Err(e) => Err(e),
            Ok(instructions) => match function_table(
                c.functions,
                label_table(code, code.len() as int),
                c.functions.len() as int,
            ) {
                Err(e) => Err(e),
                Ok(functions) => Ok(ProgramModel { instructions, functions, classes: c.classes }),
            },
        },
    }
}

/// What compiling the program `statements` gives: what a compiler that has compiled
/// nothing yet gives for it.
pub open spec fn compile_program(
    statements: Seq<StatementModel>,
    floats: Seq<(Seq<char>, FloatModel)>,
) -> Result<ProgramModel, CompileError> {
    compile_from(fresh(), statements, floats)
}

impl InstructionCompiler {
    /// The instructions of `translations`, with every label resolved to its address.
    pub fn compile_translation(&mut self, translations: Vec<Translation>) -> (r: Result<
        Vec<Instruction>,
        CompileError,
    >)
        ensures
            match resolve(translations_model(translations@)) {
                Ok(instructions) => r matches Ok(v) && code_model(v@) == instructions,
                Err(e) => r matches Err(x) && x == e,
            },
            *final(self) == *old(self),
    {
        let labels = find_labels(&translations);
        resolve_with(translations, &labels)
    }

    /// Compiles the program `statements`, going on from the labels, functions and classes
    /// that the compiler holds: afterwards `instructions` holds the code,
    /// `functions_locations` the address of each function and `class_creators` the classes.
    pub fn run(&mut self, statements: &Vec<Statement>, floats: &Vec<FloatLiteral>) -> (r: Result<
        (),
        CompileError,
    >)
        ensures
            match compile_from(old(self).state(), block_model(statements@), floats_model(floats@)) {
                Ok(p) => {
                    &&& r is Ok
                    &&& code_model(final(self).instructions@) == p.instructions
                    &&& final(self).functions_locations@ == p.functions
                    &&& classes_model(final(self).class_creators@) == p.classes
                },
                Err(e) => r == Err::<(), CompileError>(e),
            },
    {
        let ghost given = self.state();
        let top = Scope::outermost();
        let translations = match self.compile_block(statements, &top, floats) {
            Err(e) => {
                return Err(e);
            },
            Ok(t) => t,
        };
        let ghost code = translations_model(translations@);
        let labels = find_labels(&translations);
        let compiled = match resolve_with(translations, &labels) {
            Err(e) => {
                return Err(e);
            },
            Ok(c) => c,
        };
        let ghost compiled_model = code_model(compiled@);
        self.instructions = compiled;
        let mut locations: StringHashMap<usize> = StringHashMap::new();
        let ghost functions = functions_model(self.functions_label_locations@);
        let ghost table = addresses(labels@);
        let n = self.functions_label_locations.len();
        let mut i: usize = 0;
        while i < n
            invariant
                i <= n,
                given == old(self).state(),
                n == self.functions_label_locations.len(),
                functions == functions_model(self.functions_label_locations@),
                table == addresses(labels@),
                function_table(functions, table, i as int) == Ok::<Map<Seq<char>, usize>, CompileError>(
                    locations@,
                ),
                code_model(self.instructions@) == compiled_model,
                self.state() == lower_block(
                    given,
                    block_model(statements@),
                    outermost(),
                    floats_model(floats@),
                )->Ok_0.0,
                lower_block(given, block_model(statements@), outermost(), floats_model(floats@))
                    == Ok::<(CompilerModel, Seq<TranslationModel>), CompileError>(
                    (self.state(), code),
                ),
                resolve(code) == Ok::<Seq<InstructionModel>, CompileError>(compiled_model),
                table == label_table(code, code.len() as int),
            decreases n - i,
        {
            let label = self.functions_label_locations[i].1;
            match labels.get(&label) {
                Some(address) => {
                    let name = self.functions_label_locations[i].0.clone();
                    locations.insert(name, *address);
                },
                None => {
                    proof {
                        lemma_function_table_fails(functions, table, i as int + 1, n as int);
                    }
                    return Err(CompileError::UnresolvedLabel);
                },
            }
            i += 1;
        }
        self.functions_locations = locations;
        Ok(())
    }

    /// Compiles the program `vec`: returns its instructions, the address of each function,
    /// and its classes.
    pub fn compile(vec: &Vec<Statement>, floats: &Vec<FloatLiteral>) -> (r: Result<
        (Vec<Instruction>, StringHashMap<usize>, StringHashMap<ObjectCreator>),
        CompileError,
    >)
        ensures
            match compile_program(block_model(vec@), floats_model(floats@)) {
                Ok(p) => r matches Ok(x) && code_model(x.0@) == p.instructions && x.1@ == p.functions
                    && classes_model(x.2@) == p.classes,
                Err(e) => r matches Err(x) && x == e,
            },
    {
        let mut compiler = InstructionCompiler::new();
        match compiler.run(vec, floats) {
            Err(e) => Err(e),
            Ok(()) => Ok((compiler.instructions, compiler.functions_locations, compiler.class_creators)),
        }
    }
}

/// Compiles the program `vec`: returns its instructions, the address of each function, and
/// its classes.
pub fn compile(vec: &Vec<Statement>, floats: &Vec<FloatLiteral>) -> (r: Result<
    (Vec<Instruction>, StringHashMap<usize>, StringHashMap<ObjectCreator>),
    CompileError,
>)
    ensures
        match compile_program(block_model(vec@), floats_model(floats@)) {
            Ok(p) => r matches Ok(x) && code_model(x.0@) == p.instructions && x.1@ == p.functions
                && classes_model(x.2@) == p.classes,
            Err(e) => r matches Err(x) && x == e,
        },
{
    InstructionCompiler::compile(vec, floats)
}

/// The address of every label is at least 1 and at most one more than the number of
/// instructions: it is an address of the machine's code, which has a `Nop` before the
/// instructions, or the address just after it.
pub proof fn law_label_addresses(code: Seq<TranslationModel>, n: int, id: usize)
    requires
        0 <= n <= code.len(),
        label_table(code, n).contains_key(id),
    ensures
        1 <= label_table(code, n)[id] <= code_count(code, n) + 1,
    decreases n,
{
    if n > 0 {
        lemma_code_count_bounds(code, n - 1);
        match code[n - 1] {
            TranslationModel::Label(other) => {
                if other != id {
                    law_label_addresses(code, n - 1, id);
                }
            },
            _ => {
                law_label_addresses(code, n - 1, id);
            },
        }
    }
}

/// Resolving labels leaves one instruction for each item that is no label.
pub proof fn lemma_resolved_len(code: Seq<TranslationModel>, labels: Map<usize, int>, n: int)
    requires
        0 <= n <= code.len(),
        resolved(code, labels, n) is Ok,
    ensures
        resolved(code, labels, n)->Ok_0.len() == code_count(code, n),
    decreases n,
{
    if n > 0 {
        lemma_resolved_len(code, labels, n - 1);
    }
}

/// Every label of a piece of code that resolves has an address in the machine's code or
/// just after it: between 1 and the length of the code with its `Nop`. Where the code does
/// not end in a label, the address is below that length.
pub proof fn law_labels_within_code(code: Seq<TranslationModel>, id: usize)
    requires
        resolve(code) is Ok,
        label_table(code, code.len() as int).contains_key(id),
    ensures
        1 <= label_table(code, code.len() as int)[id] <= resolve(code)->Ok_0.len() + 1,
        code.len() > 0 && !(code.last() is Label) ==> label_table(code, code.len() as int)[id]
            < resolve(code)->Ok_0.len() + 1,
{
    let n = code.len() as int;
    law_label_addresses(code, n, id);
    lemma_resolved_len(code, label_table(code, n), n);
    if n > 0 && !(code.last() is Label) {
        assert(label_table(code, n) == label_table(code, n - 1));
        law_label_addresses(code, n - 1, id);
    }
}

} // verus!
