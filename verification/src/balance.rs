//! The code of a program pairs every `NewVariable` with a `Delete` on every way through it.
//!
//! A walk reads code in the order of the text and keeps the variables that are alive: the
//! names that a `NewVariable` has added and no `Delete` has taken away, counted from the
//! start of the program or from the entry of the function that the code belongs to. At a
//! jump it notes the variables that are alive for the label of the jump, and at a label it
//! expects the ones noted for it; at a `Return` it expects that none is alive. Code is
//! balanced where every jump to a label and every arrival at it in the order of the text
//! find the same variables alive, and every return finds none. The code of a program
//! whose functions end in a `return` is balanced.

use crate::eval_parser::ExprModel;
use crate::instruction::InstructionModel;
use crate::instruction_compiler::arity_guard;
use crate::instruction_compiler::arity_message;
use crate::instruction_compiler::call_code;
use crate::instruction_compiler::deletes;
use crate::instruction_compiler::entered;
use crate::instruction_compiler::in_function;
use crate::instruction_compiler::in_loop;
use crate::instruction_compiler::lower_all;
use crate::instruction_compiler::lower_block;
use crate::instruction_compiler::lower_branches;
use crate::instruction_compiler::lower_call;
use crate::instruction_compiler::lower_conditional;
use crate::instruction_compiler::lower_expr;
use crate::instruction_compiler::lower_function;
use crate::instruction_compiler::lower_items;
use crate::instruction_compiler::lower_statement;
use crate::instruction_compiler::lower_statements;
use crate::instruction_compiler::lower_while;
use crate::instruction_compiler::new_variables;
use crate::instruction_compiler::op_instruction;
use crate::instruction_compiler::outermost;
use crate::instruction_compiler::plain;
use crate::instruction_compiler::push_count;
use crate::instruction_compiler::with_deletes;
use crate::instruction_compiler::CompilerModel;
use crate::instruction_compiler::JumpKind;
use crate::instruction_compiler::ScopeModel;
use crate::instruction_compiler::TranslationModel;
use crate::labels::fresh;
use crate::parser::StatementModel;
use crate::value::FloatModel;
use crate::value::ValueTypeModel;
use vstd::multiset::Multiset;
use vstd::prelude::*;

verus! {

/// The variables that are alive at an item of code, each as often as it was made and not
/// deleted since, and whether the item belongs to a function.
pub struct Alive {
    pub names: Multiset<Seq<char>>,
    pub inside: bool,
}

impl Alive {
    /// These variables and one more under `name`.
    pub open spec fn made(self, name: Seq<char>) -> Alive {
        Alive { names: self.names.insert(name), ..self }
    }

    /// These variables less one under `name`.
    pub open spec fn deleted(self, name: Seq<char>) -> Alive {
        Alive { names: self.names.remove(name), ..self }
    }

    /// These variables and those of `more`.
    pub open spec fn made_all(self, more: Multiset<Seq<char>>) -> Alive {
        Alive { names: self.names.add(more), ..self }
    }

    /// These variables less those of `less`.
    pub open spec fn deleted_all(self, less: Multiset<Seq<char>>) -> Alive {
        Alive { names: self.names.sub(less), ..self }
    }
}

/// A walk through code, at some item of it: whether every label so far was reached as it
/// was noted and every return found no more variables than `owed`; the variables noted for
/// each label, or `None` for a label that stands where no way through the code leads; the
/// variables alive before the item, or `None` where no way through the code leads to it;
/// the labels that are entries of functions; and the variables that may be alive at a
/// `Return`, which are none once the code of a function is complete.
pub struct Walk {
    pub ok: bool,
    pub labels: Map<usize, Option<Alive>>,
    pub live: Option<Alive>,
    pub entries: Set<usize>,
    pub owed: Multiset<Seq<char>>,
}

/// The walk `w` after it has gone to the label `l`, by a jump or in the order of the text:
/// the variables alive are noted for `l`, or compared with what is noted for it.
pub open spec fn noted(w: Walk, l: usize) -> Walk {
    match w.live {
        Some(m) => if w.labels.contains_key(l) {
            Walk { ok: w.ok && w.labels[l] == Some(m), ..w }
        } else {
            Walk { labels: w.labels.insert(l, Some(m)), ..w }
        },
        None => w,
    }
}

/// The walk `w` after `item`. The entry of a function is reached by calls only, and begins
/// with no variable of the function alive.
pub open spec fn walk_item(w: Walk, item: TranslationModel) -> Walk {
    match item {
        TranslationModel::Instruction(InstructionModel::NewVariable(name)) => match w.live {
            Some(m) => Walk { live: Some(m.made(name)), ..w },
            None => w,
        },
        TranslationModel::Instruction(InstructionModel::Delete(name)) => match w.live {
            Some(m) => Walk { live: Some(m.deleted(name)), ..w },
            None => w,
        },
        TranslationModel::Instruction(
            InstructionModel::Jump(_) | InstructionModel::JumpIfFalse(_)
            | InstructionModel::JumpIfTrue(_),
        ) => Walk { ok: false, ..w },
        TranslationModel::Instruction(InstructionModel::Return) => Walk {
            ok: w.ok && (w.live matches Some(m) ==> m.inside && m.names.subset_of(w.owed)),
            live: None,
            ..w
        },
        TranslationModel::Instruction(_) => w,
        TranslationModel::Label(l) => if w.entries.contains(l) {
            Walk {
                ok: w.ok && w.live is None,
                live: Some(Alive { names: Multiset::empty(), inside: true }),
                ..w
            }
        } else {
            match w.live {
                Some(m) => noted(w, l),
                None => if w.labels.contains_key(l) {
                    Walk { live: w.labels[l], ..w }
                } else {
                    Walk { labels: w.labels.insert(l, None), ..w }
                },
            }
        },
        TranslationModel::Jump(kind, l) => if w.entries.contains(l) {
            Walk { ok: false, ..w }
        } else if kind == JumpKind::Always {
            Walk { live: None, ..noted(w, l) }
        } else {
            noted(w, l)
        },
    }
}

/// The walk `w` after the first `n` items of `code`.
pub open spec fn walk(code: Seq<TranslationModel>, n: int, w: Walk) -> Walk
    decreases n,
{
    if n <= 0 || n > code.len() {
        w
    } else {
        walk_item(walk(code, n - 1, w), code[n - 1])
    }
}

/// The walk `w` after all of `code`.
pub open spec fn through(w: Walk, code: Seq<TranslationModel>) -> Walk {
    walk(code, code.len() as int, w)
}

/// The walk at the start of a program whose functions have the entries `entries`: no label
/// is noted, no variable is alive, and the code belongs to no function.
pub open spec fn start_walk(entries: Set<usize>) -> Walk {
    Walk {
        ok: true,
        labels: Map::empty(),
        live: Some(Alive { names: Multiset::empty(), inside: false }),
        entries,
        owed: Multiset::empty(),
    }
}

/// Whether `code` is balanced, where its functions have the entries `entries`: a walk
/// through it that starts without variables reaches every label as it was noted, finds no
/// variable alive at any return, and ends outside the functions and without variables
/// where a way leads to the end.
pub open spec fn balanced(code: Seq<TranslationModel>, entries: Set<usize>) -> bool {
    let end = through(start_walk(entries), code);
    end.ok && (end.live matches Some(m) ==> m.names == Multiset::<Seq<char>>::empty() && !m.inside)
}

/// The labels that are entries of `functions`.
pub open spec fn entries_of(functions: Seq<(Seq<char>, usize)>) -> Set<usize> {
    Set::new(|l: usize| exists|k: int| 0 <= k < functions.len() && (#[trigger] functions[k]).1 == l)
}

/// The first `n` of `names`, each as often as it stands among them.
pub open spec fn bag(names: Seq<Seq<char>>, n: int) -> Multiset<Seq<char>>
    decreases n,
{
    if n <= 0 || n > names.len() {
        Multiset::empty()
    } else {
        bag(names, n - 1).insert(names[n - 1])
    }
}

/// All of `names`, each as often as it stands among them.
pub open spec fn all(names: Seq<Seq<char>>) -> Multiset<Seq<char>> {
    bag(names, names.len() as int)
}

proof fn lemma_walk_prefix(a: Seq<TranslationModel>, b: Seq<TranslationModel>, n: int, w: Walk)
    requires
        0 <= n <= a.len(),
    ensures
        walk(a + b, n, w) == walk(a, n, w),
    decreases n,
{
    if n > 0 {
        lemma_walk_prefix(a, b, n - 1, w);
        assert((a + b)[n - 1] == a[n - 1]);
    }
}

proof fn lemma_walk_suffix(a: Seq<TranslationModel>, b: Seq<TranslationModel>, n: int, w: Walk)
    requires
        0 <= n <= b.len(),
    ensures
        walk(a + b, a.len() + n, w) == walk(b, n, through(w, a)),
    decreases n,
{
    if n > 0 {
        lemma_walk_suffix(a, b, n - 1, w);
        assert((a + b)[a.len() + n - 1] == b[n - 1]);
    } else {
        lemma_walk_prefix(a, b, a.len() as int, w);
    }
}

/// A walk through two pieces of code is the walk through the second after the walk
/// through the first.
proof fn lemma_through_both(w: Walk, a: Seq<TranslationModel>, b: Seq<TranslationModel>)
    ensures
        through(w, a + b) == through(through(w, a), b),
{
    lemma_walk_suffix(a, b, b.len() as int, w);
}

/// A walk through one item is the walk after that item.
proof fn lemma_through_one(w: Walk, item: TranslationModel)
    ensures
        through(w, seq![item]) == walk_item(w, item),
{
    reveal_with_fuel(walk, 2);
}

/// A walk through two items is the walk after the one and then the other.
proof fn lemma_through_two(w: Walk, first: TranslationModel, second: TranslationModel)
    ensures
        through(w, seq![first, second]) == walk_item(walk_item(w, first), second),
{
    reveal_with_fuel(walk, 3);
}

/// A walk through no code stays as it is.
proof fn lemma_through_none(w: Walk)
    ensures
        through(w, Seq::empty()) == w,
{
}

/// Whether the instruction `i` makes or deletes no variable, and is no jump and no return.
pub open spec fn quiet_one(i: InstructionModel) -> bool {
    !(i is NewVariable) && !(i is Delete) && !(i is Jump) && !(i is JumpIfFalse) && !(i is JumpIfTrue)
        && !(i is Return)
}

/// Whether none of `code` makes or deletes a variable, or is a jump or a return.
pub open spec fn quiet(code: Seq<InstructionModel>) -> bool {
    forall|i: int| 0 <= i < code.len() ==> quiet_one(#[trigger] code[i])
}

proof fn lemma_walk_quiet(w: Walk, code: Seq<InstructionModel>, n: int)
    requires
        quiet(code),
        0 <= n <= code.len(),
    ensures
        walk(plain(code), n, w) == w,
    decreases n,
{
    if n > 0 {
        lemma_walk_quiet(w, code, n - 1);
        assert(quiet_one(code[n - 1]));
        assert(plain(code)[n - 1] == TranslationModel::Instruction(code[n - 1]));
    }
}

/// Code that makes and deletes no variable leaves a walk as it is.
proof fn lemma_through_quiet(w: Walk, code: Seq<InstructionModel>)
    requires
        quiet(code),
    ensures
        through(w, plain(code)) == w,
{
    lemma_walk_quiet(w, code, code.len() as int);
}

proof fn lemma_quiet_both(a: Seq<InstructionModel>, b: Seq<InstructionModel>)
    requires
        quiet(a),
        quiet(b),
    ensures
        quiet(a + b),
{
    assert forall|i: int| 0 <= i < (a + b).len() implies quiet_one(#[trigger] (a + b)[i]) by {
        if i < a.len() {
            assert((a + b)[i] == a[i]);
        } else {
            assert((a + b)[i] == b[i - a.len()]);
        }
    }
}

/// The code of an expression makes and deletes no variable.
proof fn lemma_expr_quiet(e: ExprModel, floats: Seq<(Seq<char>, FloatModel)>)
    requires
        lower_expr(e, floats) is Ok,
    ensures
        quiet(lower_expr(e, floats)->Ok_0),
    decreases e, 0int,
{
    match e {
        ExprModel::List(items) => {
            lemma_items_quiet(items, items.len() as int, floats);
            lemma_quiet_both(
                seq![InstructionModel::Push(ValueTypeModel::Vector(Seq::empty()))],
                lower_items(items, items.len() as int, floats)->Ok_0,
            );
        },
        ExprModel::Call(name, args) => {
            lemma_call_quiet(name, args, floats);
        },
        ExprModel::Binary(op, lhs, rhs) => {
            lemma_expr_quiet(*lhs, floats);
            lemma_expr_quiet(*rhs, floats);
            let left = lower_expr(*lhs, floats)->Ok_0;
            let right = lower_expr(*rhs, floats)->Ok_0;
            lemma_quiet_both(left, right);
            lemma_quiet_both(left + right, seq![op_instruction(op)]);
        },
        _ => {},
    }
}

/// The code of a call makes and deletes no variable.
proof fn lemma_call_quiet(name: Seq<char>, args: Seq<ExprModel>, floats: Seq<(Seq<char>, FloatModel)>)
    requires
        lower_call(name, args, floats) is Ok,
    ensures
        quiet(lower_call(name, args, floats)->Ok_0),
    decreases args, args.len() + 1,
{
    lemma_all_quiet(args, args.len() as int, floats);
    lemma_quiet_both(lower_all(args, args.len() as int, floats)->Ok_0, call_code(name, args.len() as int));
}

proof fn lemma_all_quiet(es: Seq<ExprModel>, n: int, floats: Seq<(Seq<char>, FloatModel)>)
    requires
        lower_all(es, n, floats) is Ok,
    ensures
        quiet(lower_all(es, n, floats)->Ok_0),
    decreases es, n,
{
    if 0 < n <= es.len() {
        lemma_all_quiet(es, n - 1, floats);
        lemma_expr_quiet(es[n - 1], floats);
        lemma_quiet_both(lower_all(es, n - 1, floats)->Ok_0, lower_expr(es[n - 1], floats)->Ok_0);
    }
}

proof fn lemma_items_quiet(es: Seq<ExprModel>, n: int, floats: Seq<(Seq<char>, FloatModel)>)
    requires
        lower_items(es, n, floats) is Ok,
    ensures
        quiet(lower_items(es, n, floats)->Ok_0),
    decreases es, n,
{
    if 0 < n <= es.len() {
        lemma_items_quiet(es, n - 1, floats);
        lemma_expr_quiet(es[n - 1], floats);
        let before = lower_items(es, n - 1, floats)->Ok_0;
        let code = lower_expr(es[n - 1], floats)->Ok_0;
        lemma_quiet_both(before, code);
        lemma_quiet_both(before + code, call_code("push"@, 2));
    }
}

proof fn lemma_walk_new_variables(w: Walk, names: Seq<Seq<char>>, n: int)
    requires
        0 <= n <= names.len(),
    ensures
        walk(new_variables(names), n, w) == (Walk {
            live: match w.live {
                Some(m) => Some(m.made_all(bag(names, n))),
                None => None,
            },
            ..w
        }),
    decreases n,
{
    if n > 0 {
        lemma_walk_new_variables(w, names, n - 1);
        assert(new_variables(names)[n - 1] == TranslationModel::Instruction(
            InstructionModel::NewVariable(names[n - 1]),
        ));
        if let Some(m) = w.live {
            assert(m.names.add(bag(names, n - 1)).insert(names[n - 1]) =~= m.names.add(bag(names, n)));
        }
    } else {
        if let Some(m) = w.live {
            assert(m.names.add(bag(names, 0)) =~= m.names);
        }
    }
}

proof fn lemma_walk_deletes(w: Walk, names: Seq<Seq<char>>, n: int)
    requires
        0 <= n <= names.len(),
    ensures
        walk(deletes(names), n, w) == (Walk {
            live: match w.live {
                Some(m) => Some(m.deleted_all(bag(names, n))),
                None => None,
            },
            ..w
        }),
    decreases n,
{
    if n > 0 {
        lemma_walk_deletes(w, names, n - 1);
        assert(deletes(names)[n - 1] == TranslationModel::Instruction(
            InstructionModel::Delete(names[n - 1]),
        ));
        if let Some(m) = w.live {
            assert(m.names.sub(bag(names, n - 1)).remove(names[n - 1]) =~= m.names.sub(bag(names, n)));
        }
    } else {
        if let Some(m) = w.live {
            assert(m.names.sub(bag(names, 0)) =~= m.names);
        }
    }
}

proof fn lemma_bag_prefix(a: Seq<Seq<char>>, b: Seq<Seq<char>>, n: int)
    requires
        0 <= n <= a.len(),
    ensures
        bag(a + b, n) == bag(a, n),
    decreases n,
{
    if n > 0 {
        lemma_bag_prefix(a, b, n - 1);
        assert((a + b)[n - 1] == a[n - 1]);
    }
}

proof fn lemma_bag_both(a: Seq<Seq<char>>, b: Seq<Seq<char>>, n: int)
    requires
        0 <= n <= b.len(),
    ensures
        bag(a + b, a.len() + n) == all(a).add(bag(b, n)),
    decreases n,
{
    if n > 0 {
        lemma_bag_both(a, b, n - 1);
        assert((a + b)[a.len() + n - 1] == b[n - 1]);
        assert(all(a).add(bag(b, n - 1)).insert(b[n - 1]) =~= all(a).add(bag(b, n)));
    } else {
        lemma_bag_prefix(a, b, a.len() as int);
        assert(all(a).add(bag(b, 0)) =~= all(a));
    }
}

/// The names of two runs are those of the first and those of the second.
proof fn lemma_all_both(a: Seq<Seq<char>>, b: Seq<Seq<char>>)
    ensures
        all(a + b) == all(a).add(all(b)),
{
    lemma_bag_both(a, b, b.len() as int);
}

/// The names of `names` from the place `k` on, each as often as it stands among them.
pub open spec fn rest(names: Seq<Seq<char>>, k: int) -> Multiset<Seq<char>>
    decreases names.len() - k,
{
    if k < 0 || k >= names.len() {
        Multiset::empty()
    } else {
        rest(names, k + 1).insert(names[k])
    }
}

proof fn lemma_split(names: Seq<Seq<char>>, k: int)
    requires
        0 <= k <= names.len(),
    ensures
        bag(names, k).add(rest(names, k)) == all(names),
    decreases names.len() - k,
{
    if k < names.len() {
        lemma_split(names, k + 1);
        assert(bag(names, k + 1).add(rest(names, k + 1)) =~= bag(names, k).add(rest(names, k)));
    } else {
        assert(bag(names, k).add(rest(names, k)) =~= all(names));
    }
}

proof fn lemma_reverse_bag(names: Seq<Seq<char>>, n: int)
    requires
        0 <= n <= names.len(),
    ensures
        bag(names.reverse(), n) == rest(names, names.len() - n),
    decreases n,
{
    if n > 0 {
        lemma_reverse_bag(names, n - 1);
        assert(names.reverse()[n - 1] == names[names.len() - n]);
    }
}

/// Names in the opposite order are the same names.
proof fn lemma_all_reverse(names: Seq<Seq<char>>)
    ensures
        all(names.reverse()) == all(names),
{
    lemma_reverse_bag(names, names.len() as int);
    lemma_split(names, 0);
    assert(bag(names, 0).add(rest(names, 0)) =~= rest(names, 0));
}

/// A walk keeps the entries and what is owed.
pub proof fn lemma_walk_keeps(code: Seq<TranslationModel>, n: int, w: Walk)
    ensures
        walk(code, n, w).entries == w.entries,
        walk(code, n, w).owed == w.owed,
    decreases n,
{
    if 0 < n <= code.len() {
        lemma_walk_keeps(code, n - 1, w);
    }
}

/// A walk through code and one more item is the walk after that item.
proof fn lemma_through_push(w: Walk, code: Seq<TranslationModel>, item: TranslationModel)
    ensures
        through(w, code.push(item)) == walk_item(through(w, code), item),
{
    assert(code.push(item) =~= code + seq![item]);
    lemma_through_both(w, code, seq![item]);
    lemma_through_one(through(w, code), item);
}

/// Whether two walks have noted the same and find the same alive, and the second is in
/// order where the first is.
pub open spec fn alike(a: Walk, b: Walk) -> bool {
    &&& a.labels == b.labels
    &&& a.live == b.live
    &&& a.entries == b.entries
    &&& a.ok ==> b.ok
}

/// The code `code` with the variables `names` deleted before every `Return`, walked with
/// any variables owed, is in order where `code` is with `names` owed.
proof fn lemma_with_deletes(w: Walk, code: Seq<TranslationModel>, names: Seq<Seq<char>>, n: int)
    requires
        0 <= n <= code.len(),
    ensures
        alike(walk(code, n, Walk { owed: all(names), ..w }), through(w, with_deletes(code, names, n))),
        through(w, with_deletes(code, names, n)).owed == w.owed,
    decreases n,
{
    let wa0 = Walk { owed: all(names), ..w };
    lemma_walk_keeps(with_deletes(code, names, n), with_deletes(code, names, n).len() as int, w);
    if n > 0 {
        lemma_with_deletes(w, code, names, n - 1);
        let before = with_deletes(code, names, n - 1);
        let wa = walk(code, n - 1, wa0);
        let wb = through(w, before);
        lemma_walk_keeps(code, n - 1, wa0);
        lemma_walk_keeps(before, before.len() as int, w);
        if code[n - 1] == TranslationModel::Instruction(InstructionModel::Return) {
            let wc = through(wb, deletes(names));
            lemma_walk_deletes(wb, names, names.len() as int);
            lemma_through_both(w, before, deletes(names));
            lemma_through_one(wc, code[n - 1]);
            lemma_through_both(w, before + deletes(names), seq![code[n - 1]]);
            if let Some(m) = wa.live {
                if wa.ok && m.names.subset_of(all(names)) {
                    assert(m.names.sub(all(names)) =~= Multiset::<Seq<char>>::empty());
                }
            }
        } else {
            lemma_through_push(w, before, code[n - 1]);
        }
    } else {
        lemma_through_none(w);
    }
}

/// Whether every function definition in `s`, itself or in a block inside it, ends in a
/// `return`.
pub open spec fn functions_return(s: StatementModel) -> bool
    decreases s, 0int,
{
    match s {
        StatementModel::FunctionDefinition { name, args, body } => {
            &&& body.len() > 0
            &&& body.last() is Return
            &&& all_return(body, body.len() as int)
        },
        StatementModel::Conditional { condition, body, else_if_conditions, else_body } => {
            &&& all_return(body, body.len() as int)
            &&& branches_return(else_if_conditions, else_if_conditions.len() as int)
            &&& match else_body {
                Some(b) => all_return(b, b.len() as int),
                None => true,
            }
        },
        StatementModel::WhileLoop { condition, body } => all_return(body, body.len() as int),
        _ => true,
    }
}

/// Whether every function definition in the first `n` of `statements` ends in a `return`.
pub open spec fn all_return(statements: Seq<StatementModel>, n: int) -> bool
    decreases statements, n,
{
    if n <= 0 || n > statements.len() {
        true
    } else {
        all_return(statements, n - 1) && functions_return(statements[n - 1])
    }
}

/// Whether every function definition in the first `n` of `branches` ends in a `return`.
pub open spec fn branches_return(branches: Seq<(ExprModel, Seq<StatementModel>)>, n: int) -> bool
    decreases branches, n,
{
    if n <= 0 || n > branches.len() {
        true
    } else {
        branches_return(branches, n - 1) && all_return(
            branches[n - 1].1,
            branches[n - 1].1.len() as int,
        )
    }
}

/// Whether the compiler `c2` has gone on from `c`: it has handed out the labels of `c`
/// and maybe more, and knows the functions of `c` and maybe more, whose entries are among
/// the labels handed out since.
pub open spec fn extends(c: CompilerModel, c2: CompilerModel) -> bool {
    &&& c.label_count <= c2.label_count
    &&& c.functions.len() <= c2.functions.len()
    &&& forall|k: int| 0 <= k < c.functions.len() ==> #[trigger] c2.functions[k] == c.functions[k]
    &&& forall|k: int|
        c.functions.len() <= k < c2.functions.len() ==> c.label_count <= (#[trigger] c2.functions[k]).1
            < c2.label_count
}

proof fn lemma_extends_twice(a: CompilerModel, b: CompilerModel, c: CompilerModel)
    requires
        extends(a, b),
        extends(b, c),
    ensures
        extends(a, c),
{
    assert forall|k: int| 0 <= k < a.functions.len() implies #[trigger] c.functions[k] == a.functions[k] by {
        assert(b.functions[k] == a.functions[k]);
    }
    assert forall|k: int| a.functions.len() <= k < c.functions.len() implies a.label_count <= (
    #[trigger] c.functions[k]).1 < c.label_count by {
        if k < b.functions.len() {
            assert(c.functions[k] == b.functions[k]);
            assert(a.label_count <= b.functions[k].1 < b.label_count);
        }
    }
}

proof fn lemma_ext_statement(c: CompilerModel, s: StatementModel, scope: ScopeModel, floats: Seq<(Seq<char>, FloatModel)>)
    requires
        0 <= c.label_count,
        lower_statement(c, s, scope, floats) is Ok,
    ensures
        extends(c, lower_statement(c, s, scope, floats)->Ok_0.compiler),
    decreases s, 1int,
{
    match s {
        StatementModel::Conditional { condition, body, else_if_conditions, else_body } => {
            let end = c.label_count as usize;
            let c1 = CompilerModel { label_count: c.label_count + 2, ..c };
            let c2 = lower_block(c1, body, scope, floats)->Ok_0.0;
            let n = else_if_conditions.len() as int;
            let c3 = lower_branches(c2, else_if_conditions, n, end, scope, floats)->Ok_0.0;
            assert(extends(c, c1));
            lemma_ext_block(c1, body, scope, floats);
            lemma_ext_branches(c2, else_if_conditions, n, end, scope, floats);
            lemma_extends_twice(c, c1, c2);
            lemma_extends_twice(c, c2, c3);
            match else_body {
                Some(b) => {
                    lemma_ext_block(c3, b, scope, floats);
                    lemma_extends_twice(c, c3, lower_block(c3, b, scope, floats)->Ok_0.0);
                },
                None => {},
            }
        },
        StatementModel::WhileLoop { condition, body } => {
            let start = c.label_count as usize;
            let end = (c.label_count + 1) as usize;
            let c1 = CompilerModel { label_count: c.label_count + 2, ..c };
            assert(extends(c, c1));
            lemma_ext_block(c1, body, in_loop(scope, start, end), floats);
            lemma_extends_twice(c, c1, lower_block(c1, body, in_loop(scope, start, end), floats)->Ok_0.0);
        },
        StatementModel::FunctionDefinition { name, args, body } => {
            let entry = (c.label_count + 1) as usize;
            let c1 = CompilerModel {
                label_count: c.label_count + 2,
                functions: c.functions.push((name, entry)),
                classes: c.classes,
            };
            assert(extends(c, c1));
            lemma_ext_block(c1, body, in_function(), floats);
            lemma_extends_twice(c, c1, lower_block(c1, body, in_function(), floats)->Ok_0.0);
        },
        _ => {
            assert(extends(c, c));
        },
    }
}

proof fn lemma_ext_branches(
    c: CompilerModel,
    branches: Seq<(ExprModel, Seq<StatementModel>)>,
    n: int,
    end: usize,
    scope: ScopeModel,
    floats: Seq<(Seq<char>, FloatModel)>,
)
    requires
        0 <= c.label_count,
        0 <= n <= branches.len(),
        lower_branches(c, branches, n, end, scope, floats) is Ok,
    ensures
        extends(c, lower_branches(c, branches, n, end, scope, floats)->Ok_0.0),
    decreases branches, n,
{
    if n > 0 {
        lemma_ext_branches(c, branches, n - 1, end, scope, floats);
        let c1 = lower_branches(c, branches, n - 1, end, scope, floats)->Ok_0.0;
        let c2 = CompilerModel { label_count: c1.label_count + 1, ..c1 };
        assert(extends(c1, c2));
        lemma_ext_block(c2, branches[n - 1].1, scope, floats);
        lemma_extends_twice(c1, c2, lower_block(c2, branches[n - 1].1, scope, floats)->Ok_0.0);
        lemma_extends_twice(c, c1, lower_block(c2, branches[n - 1].1, scope, floats)->Ok_0.0);
    } else {
        assert(extends(c, c));
    }
}

proof fn lemma_ext_statements(
    c: CompilerModel,
    statements: Seq<StatementModel>,
    n: int,
    scope: ScopeModel,
    floats: Seq<(Seq<char>, FloatModel)>,
)
    requires
        0 <= c.label_count,
        0 <= n <= statements.len(),
        lower_statements(c, statements, n, scope, floats) is Ok,
    ensures
        extends(c, lower_statements(c, statements, n, scope, floats)->Ok_0.compiler),
    decreases statements, n,
{
    if n > 0 {
        lemma_ext_statements(c, statements, n - 1, scope, floats);
        let before = lower_statements(c, statements, n - 1, scope, floats)->Ok_0;
        let here = entered(scope, before.names);
        lemma_ext_statement(before.compiler, statements[n - 1], here, floats);
        lemma_extends_twice(
            c,
            before.compiler,
            lower_statement(before.compiler, statements[n - 1], here, floats)->Ok_0.compiler,
        );
    } else {
        assert(extends(c, c));
    }
}

/// The compiler goes on through the code of a block.
proof fn lemma_ext_block(
    c: CompilerModel,
    statements: Seq<StatementModel>,
    scope: ScopeModel,
    floats: Seq<(Seq<char>, FloatModel)>,
)
    requires
        0 <= c.label_count,
        lower_block(c, statements, scope, floats) is Ok,
    ensures
        extends(c, lower_block(c, statements, scope, floats)->Ok_0.0),
    decreases statements, statements.len() + 1,
{
    lemma_ext_statements(c, statements, statements.len() as int, scope, floats);
}

/// Whether the compiler `c` is on its way to the functions `functions`: it knows the
/// first of them, whose entries are among the labels that it has handed out, and the entries
/// of the others are not.
pub open spec fn placed(c: CompilerModel, functions: Seq<(Seq<char>, usize)>) -> bool {
    &&& 0 <= c.label_count
    &&& c.functions.len() <= functions.len()
    &&& forall|k: int| 0 <= k < c.functions.len() ==> #[trigger] functions[k] == c.functions[k]
    &&& forall|k: int| 0 <= k < c.functions.len() ==> (#[trigger] functions[k]).1 < c.label_count
    &&& forall|k: int|
        c.functions.len() <= k < functions.len() ==> (#[trigger] functions[k]).1 >= c.label_count
}

/// A compiler between two that are on their way to `functions` is on its way to them.
proof fn lemma_placed_mid(a: CompilerModel, b: CompilerModel, c: CompilerModel, functions: Seq<(Seq<char>, usize)>)
    requires
        placed(a, functions),
        placed(c, functions),
        extends(a, b),
        extends(b, c),
    ensures
        placed(b, functions),
{
    assert forall|k: int| 0 <= k < b.functions.len() implies #[trigger] functions[k] == b.functions[k] by {
        assert(c.functions[k] == b.functions[k]);
    }
    assert forall|k: int| 0 <= k < b.functions.len() implies (#[trigger] functions[k]).1 < b.label_count by {
        if k >= a.functions.len() {
            assert(a.label_count <= b.functions[k].1 < b.label_count);
        }
    }
    assert forall|k: int| b.functions.len() <= k < functions.len() implies (#[trigger] functions[k]).1
        >= b.label_count by {
        if k < c.functions.len() {
            assert(b.label_count <= c.functions[k].1 < c.label_count);
        }
    }
}

/// A label that the compiler hands out without defining a function is no entry.
proof fn lemma_fresh(a: CompilerModel, b: CompilerModel, functions: Seq<(Seq<char>, usize)>, l: usize)
    requires
        placed(a, functions),
        placed(b, functions),
        a.functions.len() == b.functions.len(),
        a.label_count <= l < b.label_count,
    ensures
        !entries_of(functions).contains(l),
{
    assert forall|k: int| 0 <= k < functions.len() implies (#[trigger] functions[k]).1 != l by {
        if k < a.functions.len() {
            assert(functions[k].1 < a.label_count);
        } else {
            assert(functions[k].1 >= b.label_count);
        }
    }
}

/// Whether every label of `labels` is below `bound`.
pub open spec fn below(labels: Map<usize, Option<Alive>>, bound: int) -> bool {
    forall|l: usize| #[trigger] labels.contains_key(l) ==> l < bound
}

/// Whether `b` holds what `a` holds, and beyond that only labels from `from` on.
pub open spec fn grown(a: Map<usize, Option<Alive>>, b: Map<usize, Option<Alive>>, from: int) -> bool {
    &&& forall|l: usize| #[trigger] a.contains_key(l) ==> b.contains_key(l) && b[l] == a[l]
    &&& forall|l: usize| #[trigger] b.contains_key(l) && !a.contains_key(l) ==> from <= l
}

/// Whether a jump from `w` to `target`, after the variables `live` are deleted, finds the
/// variables that are noted for `target`, which is no entry.
pub open spec fn target_ok(w: Walk, target: Option<usize>, live: Seq<Seq<char>>) -> bool {
    match target {
        Some(l) => {
            &&& !w.entries.contains(l)
            &&& w.live matches Some(m) ==> w.labels.contains_key(l) && w.labels[l] == Some(
                m.deleted_all(all(live)),
            )
        },
        None => true,
    }
}

/// Whether the walk `w` can go on through the code of a statement that the compiler `c`
/// lowers in `scope` on its way to `functions`: the labels that the compiler will hand out
/// are not noted yet, `break` and `continue` find the loop as it was entered, and `return`
/// finds no more than is owed once the variables of the function are deleted.
pub open spec fn ready(w: Walk, c: CompilerModel, scope: ScopeModel, functions: Seq<(Seq<char>, usize)>) -> bool {
    &&& w.ok
    &&& placed(c, functions)
    &&& w.entries == entries_of(functions)
    &&& below(w.labels, c.label_count)
    &&& target_ok(w, scope.start, scope.loop_live)
    &&& target_ok(w, scope.end, scope.loop_live)
    &&& scope.in_function ==> (w.live matches Some(m) ==> m.inside && m.names.sub(
        all(scope.function_live),
    ).subset_of(w.owed))
}

/// Whether the walk `w`, gone through code that took the compiler from `c` to `c2` and
/// introduces `names`, has come out as `w2` should: every label was reached as noted, only
/// labels of that code were noted, and where a way leads to the end, the variables alive
/// are those from before and `names`.
pub open spec fn passed(w: Walk, c: CompilerModel, w2: Walk, c2: CompilerModel, names: Seq<Seq<char>>) -> bool {
    &&& w2.ok
    &&& c.label_count <= c2.label_count
    &&& below(w2.labels, c2.label_count)
    &&& grown(w.labels, w2.labels, c.label_count)
    &&& w2.entries == w.entries
    &&& w2.owed == w.owed
    &&& match w2.live {
        None => true,
        Some(m2) => w.live matches Some(m) && m2 == m.made_all(all(names)),
    }
}

/// Whether the label `end` of a conditional is noted as the conditional needs it: not at
/// all, or with the variables that are alive where the conditional begins.
pub open spec fn end_ok(w: Walk, end: usize) -> bool {
    !w.labels.contains_key(end) || (w.live is Some && w.labels[end] == w.live)
}

proof fn lemma_all_none()
    ensures
        all(Seq::<Seq<char>>::empty()) == Multiset::<Seq<char>>::empty(),
{
}

proof fn lemma_all_one(name: Seq<char>)
    ensures
        all(seq![name]) == Multiset::<Seq<char>>::empty().insert(name),
{
    reveal_with_fuel(bag, 2);
}

/// The variables of `m` and no more are those of `m`.
proof fn lemma_made_none(m: Alive)
    ensures
        m.made_all(all(Seq::<Seq<char>>::empty())) == m,
        m.deleted_all(all(Seq::<Seq<char>>::empty())) == m,
{
    assert(m.names.add(all(Seq::<Seq<char>>::empty())) =~= m.names);
    assert(m.names.sub(all(Seq::<Seq<char>>::empty())) =~= m.names);
}

/// The test of a conditional, the jump over its body, the body, the jump to the end and the
/// label after the body.
pub open spec fn guarded(
    test: Seq<InstructionModel>,
    body_end: usize,
    inner: Seq<TranslationModel>,
    end: usize,
) -> Seq<TranslationModel> {
    plain(test) + seq![TranslationModel::Jump(JumpKind::IfFalse, body_end)] + inner + seq![
        TranslationModel::Jump(JumpKind::Always, end),
        TranslationModel::Label(body_end),
    ]
}

/// The test of a conditional, the jump over its body, the body, the jump to the end and the
/// label after the body: where the body keeps the walk, so does the whole.
proof fn lemma_guarded(
    w: Walk,
    test: Seq<InstructionModel>,
    body_end: usize,
    inner: Seq<TranslationModel>,
    end: usize,
    bound: int,
)
    requires
        quiet(test),
        w.ok,
        below(w.labels, body_end as int),
        end < body_end,
        body_end < bound,
        end_ok(w, end),
        !w.entries.contains(end),
        !w.entries.contains(body_end),
        ({
            let w1 = noted(w, body_end);
            let w2 = through(w1, inner);
            &&& w2.ok
            &&& below(w2.labels, bound)
            &&& grown(w1.labels, w2.labels, body_end + 1)
            &&& (w2.live is None || w2.live == w1.live)
            &&& w2.entries == w.entries
            &&& w2.owed == w.owed
        }),
    ensures
        ({
            let w4 = through(w, guarded(test, body_end, inner, end));
            &&& w4.ok
            &&& w4.live == w.live
            &&& below(w4.labels, bound)
            &&& grown(w.labels, w4.labels, end as int)
            &&& end_ok(w4, end)
            &&& w4.entries == w.entries
            &&& w4.owed == w.owed
        }),
{
    let jump = TranslationModel::Jump(JumpKind::IfFalse, body_end);
    let out = TranslationModel::Jump(JumpKind::Always, end);
    let label = TranslationModel::Label(body_end);
    let w1 = noted(w, body_end);
    let w2 = through(w1, inner);
    let w3 = walk_item(w2, out);
    let w4 = walk_item(w3, label);
    lemma_through_quiet(w, test);
    lemma_through_one(w, jump);
    lemma_through_both(w, plain(test), seq![jump]);
    lemma_through_both(w, plain(test) + seq![jump], inner);
    lemma_through_two(w2, out, label);
    lemma_through_both(w, plain(test) + seq![jump] + inner, seq![out, label]);
    assert(through(w, plain(test) + seq![jump] + inner + seq![out, label]) == w4);
    assert(!w.labels.contains_key(body_end));
    assert(w1.labels.contains_key(end) == w.labels.contains_key(end));
    assert(w2.labels.contains_key(end) == w.labels.contains_key(end)) by {
        if w2.labels.contains_key(end) && !w1.labels.contains_key(end) {
            assert(body_end + 1 <= end);
        }
    }
    assert(w2.labels.contains_key(body_end) == w1.labels.contains_key(body_end)) by {
        if w2.labels.contains_key(body_end) && !w1.labels.contains_key(body_end) {
            assert(body_end + 1 <= body_end);
        }
    }
    match w.live {
        Some(m) => {
            assert(w1.labels.contains_key(body_end) && w1.labels[body_end] == Some(m));
            assert(w2.labels.contains_key(body_end) && w2.labels[body_end] == Some(m));
            if w.labels.contains_key(end) {
                assert(w1.labels[end] == Some(m));
                assert(w2.labels[end] == Some(m));
            }
            assert(w3.ok);
            assert(w3.live is None);
            assert(w3.labels.contains_key(body_end) && w3.labels[body_end] == Some(m));
            assert(w4.live == Some(m));
            assert(w4.labels == w3.labels);
            assert(w3.labels.contains_key(end) ==> w3.labels[end] == Some(m));
        },
        None => {
            assert(w1 == w);
            assert(w2.live is None);
            assert(w3 == w2);
            assert(!w3.labels.contains_key(body_end));
            assert(w4.labels == w3.labels.insert(body_end, None));
            assert(!w4.labels.contains_key(end));
        },
    }
    assert(w4.ok);
    assert(w4.live == w.live);
    assert(below(w4.labels, bound));
    assert(grown(w.labels, w4.labels, end as int)) by {
        assert forall|l: usize| #[trigger] w.labels.contains_key(l) implies w4.labels.contains_key(l)
            && w4.labels[l] == w.labels[l] by {
            assert(w1.labels.contains_key(l) && w1.labels[l] == w.labels[l]);
            assert(w2.labels.contains_key(l) && w2.labels[l] == w.labels[l]);
        }
        assert forall|l: usize| #[trigger] w4.labels.contains_key(l) && !w.labels.contains_key(l) implies end
            <= l by {
            if l != body_end && l != end {
                assert(w2.labels.contains_key(l));
                if !w1.labels.contains_key(l) {
                    assert(body_end + 1 <= l);
                }
            }
        }
    }
    assert(end_ok(w4, end));
}

proof fn lemma_target_kept(w: Walk, w2: Walk, target: Option<usize>, live: Seq<Seq<char>>)
    requires
        target_ok(w, target, live),
        w2.live == w.live,
        w2.entries == w.entries,
        forall|l: usize| #[trigger] w.labels.contains_key(l) ==> w2.labels.contains_key(l) && w2.labels[l]
            == w.labels[l],
    ensures
        target_ok(w2, target, live),
{
    if let (Some(m), Some(l)) = (w.live, target) {
        assert(w.labels.contains_key(l));
    }
}

proof fn lemma_ready_kept(
    w: Walk,
    c: CompilerModel,
    w2: Walk,
    c2: CompilerModel,
    scope: ScopeModel,
    functions: Seq<(Seq<char>, usize)>,
)
    requires
        ready(w, c, scope, functions),
        w2.ok,
        w2.live == w.live,
        w2.entries == w.entries,
        w2.owed == w.owed,
        placed(c2, functions),
        below(w2.labels, c2.label_count),
        forall|l: usize| #[trigger] w.labels.contains_key(l) ==> w2.labels.contains_key(l) && w2.labels[l]
            == w.labels[l],
    ensures
        ready(w2, c2, scope, functions),
{
    lemma_target_kept(w, w2, scope.start, scope.loop_live);
    lemma_target_kept(w, w2, scope.end, scope.loop_live);
}

proof fn lemma_target_entered(w: Walk, w2: Walk, target: Option<usize>, live: Seq<Seq<char>>, names: Seq<Seq<char>>)
    requires
        target_ok(w, target, live),
        w2.entries == w.entries,
        w2.live matches Some(m2) ==> w.live matches Some(m) && m2 == m.made_all(all(names)),
        forall|l: usize| #[trigger] w.labels.contains_key(l) ==> w2.labels.contains_key(l) && w2.labels[l]
            == w.labels[l],
    ensures
        target_ok(w2, target, live + names),
{
    if let (Some(m2), Some(l)) = (w2.live, target) {
        let m = w.live->Some_0;
        assert(w.labels.contains_key(l));
        lemma_all_both(live, names);
        assert(m2.names.sub(all(live + names)) =~= m.names.sub(all(live)));
    }
}

/// A walk that has passed statements of a block is ready for the next one.
proof fn lemma_ready_entered(
    w: Walk,
    c: CompilerModel,
    w2: Walk,
    c2: CompilerModel,
    scope: ScopeModel,
    names: Seq<Seq<char>>,
    functions: Seq<(Seq<char>, usize)>,
)
    requires
        ready(w, c, scope, functions),
        passed(w, c, w2, c2, names),
        placed(c2, functions),
    ensures
        ready(w2, c2, entered(scope, names), functions),
{
    lemma_target_entered(w, w2, scope.start, scope.loop_live, names);
    lemma_target_entered(w, w2, scope.end, scope.loop_live, names);
    if let Some(m2) = w2.live {
        let m = w.live->Some_0;
        lemma_all_both(scope.function_live, names);
        assert(m2.names.sub(all(scope.function_live + names)) =~= m.names.sub(all(scope.function_live)));
    }
}

proof fn lemma_jump(w: Walk, label: usize, live: Seq<Seq<char>>)
    requires
        w.ok,
        target_ok(w, Some(label), live),
    ensures
        ({
            let w2 = through(w, deletes(live) + seq![TranslationModel::Jump(JumpKind::Always, label)]);
            w2 == Walk { live: None, ..w }
        }),
{
    let jump = TranslationModel::Jump(JumpKind::Always, label);
    lemma_walk_deletes(w, live, live.len() as int);
    lemma_through_one(through(w, deletes(live)), jump);
    lemma_through_both(w, deletes(live), seq![jump]);
}

/// The code of `return`: it finds no more than is owed, and no way leads on from it.
proof fn lemma_return(w: Walk, values: Seq<InstructionModel>, live: Seq<Seq<char>>)
    requires
        w.ok,
        quiet(values),
        w.live matches Some(m) ==> m.inside && m.names.sub(all(live)).subset_of(w.owed),
    ensures
        ({
            let w2 = through(
                w,
                plain(values) + deletes(live) + seq![TranslationModel::Instruction(InstructionModel::Return)],
            );
            w2 == Walk { live: None, ..w }
        }),
{
    let back = TranslationModel::Instruction(InstructionModel::Return);
    lemma_through_quiet(w, values);
    lemma_walk_deletes(w, live, live.len() as int);
    lemma_through_both(w, plain(values), deletes(live));
    lemma_through_one(through(w, deletes(live)), back);
    lemma_through_both(w, plain(values) + deletes(live), seq![back]);
}

/// The code of a statement whose functions end in a `return` keeps a walk.
proof fn lemma_statement(
    c: CompilerModel,
    s: StatementModel,
    scope: ScopeModel,
    floats: Seq<(Seq<char>, FloatModel)>,
    w: Walk,
    functions: Seq<(Seq<char>, usize)>,
)
    requires
        ready(w, c, scope, functions),
        functions_return(s),
        lower_statement(c, s, scope, floats) is Ok,
        placed(lower_statement(c, s, scope, floats)->Ok_0.compiler, functions),
    ensures
        ({
            let l = lower_statement(c, s, scope, floats)->Ok_0;
            &&& passed(w, c, through(w, l.code), l.compiler, l.names)
            &&& s is Return ==> through(w, l.code).live is None
        }),
    decreases s, 3int,
{
    let l = lower_statement(c, s, scope, floats)->Ok_0;
    assert(grown(w.labels, w.labels, c.label_count));
    if let Some(m) = w.live {
        lemma_made_none(m);
    }
    match s {
        StatementModel::VariableAssignment { name, value } => {
            let code = lower_expr(value, floats)->Ok_0;
            let make = TranslationModel::Instruction(InstructionModel::NewVariable(name));
            lemma_expr_quiet(value, floats);
            lemma_through_quiet(w, code);
            lemma_through_one(w, make);
            lemma_through_both(w, plain(code), seq![make]);
            assert(l.code == plain(code) + seq![make]);
            lemma_all_one(name);
            if let Some(m) = w.live {
                assert(m.names.insert(name) =~= m.names.add(all(seq![name])));
            }
        },
        StatementModel::VariableMultiAssignment { variables, value } => {
            let code = lower_expr(value, floats)->Ok_0;
            lemma_expr_quiet(value, floats);
            lemma_through_quiet(w, code);
            lemma_walk_new_variables(w, variables, variables.len() as int);
            lemma_through_both(w, plain(code), new_variables(variables));
        },
        StatementModel::VariableReassignment { name, value } => {
            let code = lower_expr(value, floats)->Ok_0;
            let store = TranslationModel::Instruction(InstructionModel::Store(name));
            lemma_expr_quiet(value, floats);
            lemma_through_quiet(w, code);
            lemma_through_one(w, store);
            lemma_through_both(w, plain(code), seq![store]);
            assert(l.code == plain(code) + seq![store]);
        },
        StatementModel::FunctionCall { name, args } => {
            lemma_call_quiet(name, args, floats);
            lemma_through_quiet(w, lower_call(name, args, floats)->Ok_0);
        },
        StatementModel::Conditional { .. } => {
            lemma_conditional(c, s, scope, floats, w, functions);
        },
        StatementModel::WhileLoop { .. } => {
            lemma_while(c, s, scope, floats, w, functions);
        },
        StatementModel::FunctionDefinition { .. } => {
            lemma_function(c, s, floats, w, functions);
        },
        StatementModel::Continue => {
            lemma_jump(w, scope.start->Some_0, scope.loop_live);
        },
        StatementModel::Break => {
            lemma_jump(w, scope.end->Some_0, scope.loop_live);
        },
        StatementModel::Return { returns: values } => {
            let code = lower_all(values, values.len() as int, floats)->Ok_0;
            lemma_all_quiet(values, values.len() as int, floats);
            lemma_return(w, code, scope.function_live);
            assert(l.code == plain(code) + deletes(scope.function_live) + seq![
                TranslationModel::Instruction(InstructionModel::Return),
            ]);
        },
        StatementModel::ClassDeclaration { class_name, members } => {
            lemma_through_none(w);
        },
        _ => {},
    }
}

/// The compilers on the way through a conditional are on their way to `functions`, and
/// its two first labels are no entries.
proof fn lemma_conditional_places(
    c: CompilerModel,
    s: StatementModel,
    scope: ScopeModel,
    floats: Seq<(Seq<char>, FloatModel)>,
    functions: Seq<(Seq<char>, usize)>,
)
    requires
        placed(c, functions),
        s is Conditional,
        lower_conditional(c, s, scope, floats) is Ok,
        placed(lower_conditional(c, s, scope, floats)->Ok_0.compiler, functions),
    ensures
        ({
            let end = c.label_count as usize;
            let body_end = (c.label_count + 1) as usize;
            let c1 = CompilerModel { label_count: c.label_count + 2, ..c };
            let c2 = lower_block(c1, s->Conditional_body, scope, floats)->Ok_0.0;
            let branches = s->Conditional_else_if_conditions;
            let c3 = lower_branches(c2, branches, branches.len() as int, end, scope, floats)->Ok_0.0;
            &&& placed(c1, functions)
            &&& placed(c2, functions)
            &&& placed(c3, functions)
            &&& extends(c1, c2)
            &&& extends(c2, c3)
            &&& !entries_of(functions).contains(end)
            &&& !entries_of(functions).contains(body_end)
        }),
{
    match s {
        StatementModel::Conditional { condition, body, else_if_conditions, else_body } => {
            let end = c.label_count as usize;
            let body_end = (c.label_count + 1) as usize;
            let c1 = CompilerModel { label_count: c.label_count + 2, ..c };
            let c2 = lower_block(c1, body, scope, floats)->Ok_0.0;
            let n = else_if_conditions.len() as int;
            let c3 = lower_branches(c2, else_if_conditions, n, end, scope, floats)->Ok_0.0;
            let c4 = lower_conditional(c, s, scope, floats)->Ok_0.compiler;
            assert(extends(c, c1));
            lemma_ext_block(c1, body, scope, floats);
            lemma_ext_branches(c2, else_if_conditions, n, end, scope, floats);
            match else_body {
                Some(b) => {
                    lemma_ext_block(c3, b, scope, floats);
                },
                None => {
                    assert(extends(c3, c4));
                },
            }
            lemma_extends_twice(c2, c3, c4);
            lemma_extends_twice(c1, c2, c4);
            lemma_extends_twice(c, c1, c2);
            lemma_extends_twice(c, c2, c3);
            lemma_placed_mid(c, c1, c4, functions);
            lemma_placed_mid(c, c2, c4, functions);
            lemma_placed_mid(c, c3, c4, functions);
            lemma_fresh(c, c1, functions, end);
            lemma_fresh(c, c1, functions, body_end);
        },
        _ => {},
    }
}

proof fn lemma_head(
    c: CompilerModel,
    s: StatementModel,
    scope: ScopeModel,
    floats: Seq<(Seq<char>, FloatModel)>,
    w: Walk,
    functions: Seq<(Seq<char>, usize)>,
)
    requires
        ready(w, c, scope, functions),
        functions_return(s),
        s is Conditional,
        lower_conditional(c, s, scope, floats) is Ok,
        placed(lower_conditional(c, s, scope, floats)->Ok_0.compiler, functions),
    ensures
        ({
            let test = lower_expr(s->Conditional_condition, floats)->Ok_0;
            let end = c.label_count as usize;
            let body_end = (c.label_count + 1) as usize;
            let c1 = CompilerModel { label_count: c.label_count + 2, ..c };
            let c2 = lower_block(c1, s->Conditional_body, scope, floats)->Ok_0.0;
            let inner = lower_block(c1, s->Conditional_body, scope, floats)->Ok_0.1;
            let wf = through(w, guarded(test, body_end, inner, end));
            &&& lower_expr(s->Conditional_condition, floats) is Ok
            &&& lower_block(c1, s->Conditional_body, scope, floats) is Ok
            &&& c.label_count + 2 <= usize::MAX
            &&& wf.ok
            &&& wf.live == w.live
            &&& c.label_count + 2 <= c2.label_count
            &&& below(wf.labels, c2.label_count)
            &&& grown(w.labels, wf.labels, c.label_count)
            &&& end_ok(wf, end)
            &&& wf.owed == w.owed
            &&& ready(wf, c2, scope, functions)
        }),
    decreases s, 0int,
{
    match s {
        StatementModel::Conditional { condition, body, else_if_conditions, else_body } => {
            let test = lower_expr(condition, floats)->Ok_0;
            let end = c.label_count as usize;
            let body_end = (c.label_count + 1) as usize;
            let c1 = CompilerModel { label_count: c.label_count + 2, ..c };
            let c2 = lower_block(c1, body, scope, floats)->Ok_0.0;
            let inner = lower_block(c1, body, scope, floats)->Ok_0.1;
            lemma_conditional_places(c, s, scope, floats, functions);
            lemma_expr_quiet(condition, floats);
            let w1 = noted(w, body_end);
            assert(!w.labels.contains_key(body_end));
            assert(!w.labels.contains_key(end));
            lemma_ready_kept(w, c, w1, c1, scope, functions);
            lemma_block(c1, body, scope, floats, w1, functions);
            lemma_guarded(w, test, body_end, inner, end, c2.label_count);
            let wf = through(w, guarded(test, body_end, inner, end));
            lemma_ready_kept(w, c, wf, c2, scope, functions);
        },
        _ => {},
    }
}

/// The code of a conditional up to its `else`: it keeps a walk, and the variables alive.
proof fn lemma_middle(
    c: CompilerModel,
    s: StatementModel,
    scope: ScopeModel,
    floats: Seq<(Seq<char>, FloatModel)>,
    w: Walk,
    functions: Seq<(Seq<char>, usize)>,
)
    requires
        ready(w, c, scope, functions),
        functions_return(s),
        s is Conditional,
        lower_conditional(c, s, scope, floats) is Ok,
        placed(lower_conditional(c, s, scope, floats)->Ok_0.compiler, functions),
    ensures
        ({
            let test = lower_expr(s->Conditional_condition, floats)->Ok_0;
            let end = c.label_count as usize;
            let body_end = (c.label_count + 1) as usize;
            let c1 = CompilerModel { label_count: c.label_count + 2, ..c };
            let c2 = lower_block(c1, s->Conditional_body, scope, floats)->Ok_0.0;
            let inner = lower_block(c1, s->Conditional_body, scope, floats)->Ok_0.1;
            let others = s->Conditional_else_if_conditions;
            let c3 = lower_branches(c2, others, others.len() as int, end, scope, floats)->Ok_0.0;
            let branches = lower_branches(c2, others, others.len() as int, end, scope, floats)->Ok_0.1;
            let wb = through(w, guarded(test, body_end, inner, end) + branches);
            &&& c.label_count + 2 <= usize::MAX
            &&& c.label_count + 2 <= c3.label_count
            &&& !w.entries.contains(end)
            &&& wb.ok
            &&& wb.live == w.live
            &&& wb.owed == w.owed
            &&& below(wb.labels, c3.label_count)
            &&& grown(w.labels, wb.labels, c.label_count)
            &&& end_ok(wb, end)
            &&& ready(wb, c3, scope, functions)
        }),
    decreases s, 1int,
{
    match s {
        StatementModel::Conditional { condition, body, else_if_conditions, else_body } => {
            let test = lower_expr(condition, floats)->Ok_0;
            let end = c.label_count as usize;
            let body_end = (c.label_count + 1) as usize;
            let c1 = CompilerModel { label_count: c.label_count + 2, ..c };
            let c2 = lower_block(c1, body, scope, floats)->Ok_0.0;
            let inner = lower_block(c1, body, scope, floats)->Ok_0.1;
            let n = else_if_conditions.len() as int;
            let c3 = lower_branches(c2, else_if_conditions, n, end, scope, floats)->Ok_0.0;
            let branches = lower_branches(c2, else_if_conditions, n, end, scope, floats)->Ok_0.1;
            let first = guarded(test, body_end, inner, end);
            lemma_conditional_places(c, s, scope, floats, functions);
            lemma_head(c, s, scope, floats, w, functions);
            let wf = through(w, first);
            lemma_branches(c2, else_if_conditions, n, end, scope, floats, wf, functions);
            let wb = through(wf, branches);
            lemma_through_both(w, first, branches);
            lemma_grown_twice(w.labels, wf.labels, wb.labels, end as int, end as int);
            lemma_ready_kept(wf, c2, wb, c3, scope, functions);
        },
        _ => {},
    }
}

/// The code of a conditional whose functions end in a `return` keeps a walk.
proof fn lemma_conditional(
    c: CompilerModel,
    s: StatementModel,
    scope: ScopeModel,
    floats: Seq<(Seq<char>, FloatModel)>,
    w: Walk,
    functions: Seq<(Seq<char>, usize)>,
)
    requires
        ready(w, c, scope, functions),
        functions_return(s),
        lower_conditional(c, s, scope, floats) is Ok,
        placed(lower_conditional(c, s, scope, floats)->Ok_0.compiler, functions),
    ensures
        ({
            let l = lower_conditional(c, s, scope, floats)->Ok_0;
            passed(w, c, through(w, l.code), l.compiler, l.names)
        }),
    decreases s, 2int,
{
    match s {
        StatementModel::Conditional { condition, body, else_if_conditions, else_body } => {
            let l = lower_conditional(c, s, scope, floats)->Ok_0;
            let test = lower_expr(condition, floats)->Ok_0;
            let end = c.label_count as usize;
            let body_end = (c.label_count + 1) as usize;
            let c1 = CompilerModel { label_count: c.label_count + 2, ..c };
            let c2 = lower_block(c1, body, scope, floats)->Ok_0.0;
            let inner = lower_block(c1, body, scope, floats)->Ok_0.1;
            let n = else_if_conditions.len() as int;
            let c3 = lower_branches(c2, else_if_conditions, n, end, scope, floats)->Ok_0.0;
            let branches = lower_branches(c2, else_if_conditions, n, end, scope, floats)->Ok_0.1;
            let both = guarded(test, body_end, inner, end) + branches;
            let close = TranslationModel::Label(end);
            lemma_middle(c, s, scope, floats, w, functions);
            let wb = through(w, both);
            match else_body {
                None => {
                    lemma_through_one(wb, close);
                    lemma_through_both(w, both, seq![close]);
                    assert(l.code == both + seq![close]);
                    assert(grown(wb.labels, wb.labels, c3.label_count));
                    lemma_closed(w, c, wb, c3, wb, c3, end);
                },
                Some(b) => {
                    let c4 = lower_block(c3, b, scope, floats)->Ok_0.0;
                    let last = lower_block(c3, b, scope, floats)->Ok_0.1;
                    lemma_block(c3, b, scope, floats, wb, functions);
                    let wl = through(wb, last);
                    lemma_through_both(w, both, last);
                    lemma_through_one(wl, close);
                    lemma_through_both(w, both + last, seq![close]);
                    assert(l.code == both + last + seq![close]);
                    lemma_closed(w, c, wb, c3, wl, c4, end);
                },
            }
        },
        _ => {},
    }
}

proof fn lemma_grown_twice(
    a: Map<usize, Option<Alive>>,
    b: Map<usize, Option<Alive>>,
    c: Map<usize, Option<Alive>>,
    from: int,
    then: int,
)
    requires
        grown(a, b, from),
        grown(b, c, then),
        from <= then,
    ensures
        grown(a, c, from),
{
    assert forall|l: usize| #[trigger] a.contains_key(l) implies c.contains_key(l) && c[l] == a[l] by {
        assert(b.contains_key(l) && b[l] == a[l]);
    }
    assert forall|l: usize| #[trigger] c.contains_key(l) && !a.contains_key(l) implies from <= l by {
        if !b.contains_key(l) {
            assert(then <= l);
        }
    }
}

/// The end label of a conditional: where the walk `wb` stands before the `else` body with
/// the variables of the start alive, and `wl` after it, the walk after the label has passed.
proof fn lemma_closed(w: Walk, c: CompilerModel, wb: Walk, c3: CompilerModel, wl: Walk, c4: CompilerModel, end: usize)
    requires
        w.ok,
        end == c.label_count,
        0 <= c.label_count,
        c.label_count + 2 <= c3.label_count,
        below(w.labels, c.label_count),
        !w.entries.contains(end),
        wb.ok,
        wb.live == w.live,
        wb.entries == w.entries,
        wb.owed == w.owed,
        below(wb.labels, c3.label_count),
        grown(w.labels, wb.labels, end as int),
        end_ok(wb, end),
        wl.ok,
        wl.entries == w.entries,
        wl.owed == w.owed,
        c3.label_count <= c4.label_count,
        below(wl.labels, c4.label_count),
        grown(wb.labels, wl.labels, c3.label_count),
        wl.live is None || wl.live == wb.live,
    ensures
        passed(w, c, walk_item(wl, TranslationModel::Label(end)), c4, Seq::empty()),
{
    let we = walk_item(wl, TranslationModel::Label(end));
    assert(wl.labels.contains_key(end) == wb.labels.contains_key(end)) by {
        if wl.labels.contains_key(end) && !wb.labels.contains_key(end) {
            assert(c3.label_count <= end);
        }
    }
    if wb.labels.contains_key(end) {
        assert(wl.labels[end] == wb.labels[end]);
    }
    assert(we.ok);
    assert(below(we.labels, c4.label_count));
    assert(grown(w.labels, we.labels, c.label_count)) by {
        assert forall|l: usize| #[trigger] w.labels.contains_key(l) implies we.labels.contains_key(l)
            && we.labels[l] == w.labels[l] by {
            assert(wb.labels.contains_key(l) && wb.labels[l] == w.labels[l]);
            assert(wl.labels.contains_key(l) && wl.labels[l] == w.labels[l]);
        }
        assert forall|l: usize| #[trigger] we.labels.contains_key(l) && !w.labels.contains_key(l) implies c.label_count
            <= l by {
            if l != end {
                assert(wl.labels.contains_key(l));
                if !wb.labels.contains_key(l) {
                    assert(c3.label_count <= l);
                }
            }
        }
    }
    if let Some(m2) = we.live {
        let m = w.live->Some_0;
        assert(w.live is Some);
        assert(m2 == m);
        lemma_made_none(m);
    }
}

/// The code of the first `n` branches of a conditional whose functions end in a `return`
/// keeps a walk, and the variables alive.
proof fn lemma_branches(
    c: CompilerModel,
    branches: Seq<(ExprModel, Seq<StatementModel>)>,
    n: int,
    end: usize,
    scope: ScopeModel,
    floats: Seq<(Seq<char>, FloatModel)>,
    w: Walk,
    functions: Seq<(Seq<char>, usize)>,
)
    requires
        0 <= n <= branches.len(),
        ready(w, c, scope, functions),
        end < c.label_count,
        end_ok(w, end),
        !w.entries.contains(end),
        branches_return(branches, n),
        lower_branches(c, branches, n, end, scope, floats) is Ok,
        placed(lower_branches(c, branches, n, end, scope, floats)->Ok_0.0, functions),
    ensures
        ({
            let c3 = lower_branches(c, branches, n, end, scope, floats)->Ok_0.0;
            let w2 = through(w, lower_branches(c, branches, n, end, scope, floats)->Ok_0.1);
            &&& w2.ok
            &&& w2.live == w.live
            &&& w2.entries == w.entries
            &&& w2.owed == w.owed
            &&& c.label_count <= c3.label_count
            &&& below(w2.labels, c3.label_count)
            &&& grown(w.labels, w2.labels, end as int)
            &&& end_ok(w2, end)
        }),
    decreases branches, n,
{
    if n <= 0 {
        lemma_through_none(w);
    } else {
        let c1 = lower_branches(c, branches, n - 1, end, scope, floats)->Ok_0.0;
        let before = lower_branches(c, branches, n - 1, end, scope, floats)->Ok_0.1;
        let test = lower_expr(branches[n - 1].0, floats)->Ok_0;
        let body_end = c1.label_count as usize;
        let c2 = CompilerModel { label_count: c1.label_count + 1, ..c1 };
        let c3 = lower_block(c2, branches[n - 1].1, scope, floats)->Ok_0.0;
        let inner = lower_block(c2, branches[n - 1].1, scope, floats)->Ok_0.1;
        let piece = guarded(test, body_end, inner, end);
        lemma_ext_branches(c, branches, n - 1, end, scope, floats);
        assert(extends(c1, c2));
        lemma_ext_block(c2, branches[n - 1].1, scope, floats);
        lemma_extends_twice(c1, c2, c3);
        lemma_placed_mid(c, c1, c3, functions);
        lemma_extends_twice(c, c1, c2);
        lemma_placed_mid(c, c2, c3, functions);
        lemma_fresh(c1, c2, functions, body_end);
        lemma_branches(c, branches, n - 1, end, scope, floats, w, functions);
        let wb = through(w, before);
        lemma_expr_quiet(branches[n - 1].0, floats);
        let w1 = noted(wb, body_end);
        assert(!wb.labels.contains_key(body_end));
        lemma_ready_kept(w, c, wb, c1, scope, functions);
        lemma_ready_kept(wb, c1, w1, c2, scope, functions);
        lemma_block(c2, branches[n - 1].1, scope, floats, w1, functions);
        lemma_guarded(wb, test, body_end, inner, end, c3.label_count);
        let w4 = through(wb, piece);
        assert(lower_branches(c, branches, n, end, scope, floats)->Ok_0.1 =~= before + piece);
        lemma_through_both(w, before, piece);
        lemma_grown_twice(w.labels, wb.labels, w4.labels, end as int, end as int);
    }
}

/// The code of a loop whose functions end in a `return` keeps a walk.
proof fn lemma_while(
    c: CompilerModel,
    s: StatementModel,
    scope: ScopeModel,
    floats: Seq<(Seq<char>, FloatModel)>,
    w: Walk,
    functions: Seq<(Seq<char>, usize)>,
)
    requires
        ready(w, c, scope, functions),
        functions_return(s),
        lower_while(c, s, scope, floats) is Ok,
        placed(lower_while(c, s, scope, floats)->Ok_0.compiler, functions),
    ensures
        ({
            let l = lower_while(c, s, scope, floats)->Ok_0;
            passed(w, c, through(w, l.code), l.compiler, l.names)
        }),
    decreases s, 0int,
{
    match s {
        StatementModel::WhileLoop { condition, body } => {
            let l = lower_while(c, s, scope, floats)->Ok_0;
            let start = c.label_count as usize;
            let end = (c.label_count + 1) as usize;
            let c1 = CompilerModel { label_count: c.label_count + 2, ..c };
            let test = lower_expr(condition, floats)->Ok_0;
            let inside = in_loop(scope, start, end);
            let c2 = lower_block(c1, body, inside, floats)->Ok_0.0;
            let inner = lower_block(c1, body, inside, floats)->Ok_0.1;
            let head = TranslationModel::Label(start);
            let leave = TranslationModel::Jump(JumpKind::IfFalse, end);
            let again = TranslationModel::Jump(JumpKind::Always, start);
            let close = TranslationModel::Label(end);
            assert(extends(c, c1));
            lemma_ext_block(c1, body, inside, floats);
            lemma_placed_mid(c, c1, c2, functions);
            lemma_fresh(c, c1, functions, start);
            lemma_fresh(c, c1, functions, end);
            lemma_expr_quiet(condition, floats);
            assert(!w.labels.contains_key(start));
            assert(!w.labels.contains_key(end));
            let wa = walk_item(w, head);
            let wc = walk_item(wa, leave);
            lemma_through_one(w, head);
            lemma_through_quiet(wa, test);
            lemma_through_both(w, seq![head], plain(test));
            lemma_through_one(wa, leave);
            lemma_through_both(w, seq![head] + plain(test), seq![leave]);
            assert(through(w, seq![head] + plain(test) + seq![leave]) == wc);
            assert(wc.live == w.live);
            if let Some(m) = w.live {
                lemma_made_none(m);
                assert(wc.labels.contains_key(start) && wc.labels[start] == Some(m));
                assert(wc.labels.contains_key(end) && wc.labels[end] == Some(m));
            }
            assert(ready(wc, c1, inside, functions));
            lemma_block(c1, body, inside, floats, wc, functions);
            let w2 = through(wc, inner);
            lemma_through_both(w, seq![head] + plain(test) + seq![leave], inner);
            lemma_through_two(w2, again, close);
            lemma_through_both(w, seq![head] + plain(test) + seq![leave] + inner, seq![again, close]);
            let wd = walk_item(w2, again);
            let we = walk_item(wd, close);
            assert(through(w, l.code) == we);
            assert(w2.labels.contains_key(end) == wc.labels.contains_key(end)) by {
                if w2.labels.contains_key(end) && !wc.labels.contains_key(end) {
                    assert(c1.label_count <= end);
                }
            }
            if let Some(m) = w.live {
                assert(w2.labels.contains_key(start) && w2.labels[start] == Some(m));
                assert(w2.labels.contains_key(end) && w2.labels[end] == Some(m));
                assert(wd.ok);
                assert(we.live == Some(m));
            } else {
                assert(!wc.labels.contains_key(end));
                assert(w2.live is None);
                assert(we.live is None);
            }
            assert(grown(w.labels, we.labels, c.label_count)) by {
                assert forall|l: usize| #[trigger] w.labels.contains_key(l) implies we.labels.contains_key(l)
                    && we.labels[l] == w.labels[l] by {
                    assert(wc.labels.contains_key(l) && wc.labels[l] == w.labels[l]);
                    assert(w2.labels.contains_key(l) && w2.labels[l] == w.labels[l]);
                }
                assert forall|l: usize| #[trigger] we.labels.contains_key(l) && !w.labels.contains_key(l) implies c.label_count
                    <= l by {
                    if l != end && l != start {
                        assert(w2.labels.contains_key(l));
                        if !wc.labels.contains_key(l) {
                            assert(c1.label_count <= l);
                        }
                    }
                }
            }
        },
        _ => {},
    }
}

/// The code of a function definition whose functions end in a `return` keeps a walk: the
/// walk goes round the function, and through it from its entry.
proof fn lemma_function(
    c: CompilerModel,
    s: StatementModel,
    floats: Seq<(Seq<char>, FloatModel)>,
    w: Walk,
    functions: Seq<(Seq<char>, usize)>,
)
    requires
        w.ok,
        placed(c, functions),
        w.entries == entries_of(functions),
        below(w.labels, c.label_count),
        functions_return(s),
        s is FunctionDefinition,
        lower_function(c, s, floats) is Ok,
        placed(lower_function(c, s, floats)->Ok_0.compiler, functions),
    ensures
        ({
            let l = lower_function(c, s, floats)->Ok_0;
            passed(w, c, through(w, l.code), l.compiler, l.names)
        }),
    decreases s, 0int,
{
    match s {
        StatementModel::FunctionDefinition { name, args, body } => {
            let l = lower_function(c, s, floats)->Ok_0;
            let end = c.label_count as usize;
            let entry = (c.label_count + 1) as usize;
            let c1 = CompilerModel {
                label_count: c.label_count + 2,
                functions: c.functions.push((name, entry)),
                classes: c.classes,
            };
            let c2 = lower_block(c1, body, in_function(), floats)->Ok_0.0;
            let inner = lower_block(c1, body, in_function(), floats)->Ok_0.1;
            let over = TranslationModel::Jump(JumpKind::Always, end);
            let door = TranslationModel::Label(entry);
            let close = TranslationModel::Label(end);
            let guard = seq![
                push_count(args.len() as int),
                InstructionModel::Eq,
                InstructionModel::Push(ValueTypeModel::String(arity_message(args.len() as int))),
                push_count(2),
                InstructionModel::Call("assert"@),
            ];
            let body_code = with_deletes(inner, args, inner.len() as int);
            assert(extends(c, c1));
            lemma_ext_block(c1, body, in_function(), floats);
            lemma_placed_mid(c, c1, c2, functions);
            assert(functions[c.functions.len() as int] == c1.functions[c.functions.len() as int]);
            assert(functions[c.functions.len() as int].1 == entry);
            assert(w.entries.contains(entry));
            assert(!w.entries.contains(end)) by {
                assert forall|k: int| 0 <= k < functions.len() implies (#[trigger] functions[k]).1 != end by {
                    if k < c.functions.len() {
                        assert(functions[k].1 < c.label_count);
                    } else if k == c.functions.len() {
                    } else {
                        assert(functions[k].1 >= c1.label_count);
                    }
                }
            }
            assert(!w.labels.contains_key(end));
            let w1 = walk_item(w, over);
            let w2 = walk_item(w1, door);
            lemma_through_two(w, over, door);
            assert(quiet(guard));
            assert(arity_guard(args.len() as int) == plain(guard));
            lemma_through_quiet(w2, guard);
            lemma_through_both(w, seq![over, door], plain(guard));
            let rev = args.reverse();
            lemma_walk_new_variables(w2, rev, rev.len() as int);
            lemma_through_both(w, seq![over, door] + plain(guard), new_variables(rev));
            let w3 = through(w2, new_variables(rev));
            assert(through(w, seq![over, door] + plain(guard) + new_variables(rev)) == w3);
            let wr = Walk { owed: all(args), ..w3 };
            lemma_all_reverse(args);
            lemma_all_none();
            let first = Alive { names: Multiset::<Seq<char>>::empty(), inside: true };
            assert(w3.live == Some(first.made_all(all(rev))));
            assert(first.made_all(all(rev)).names =~= all(args));
            assert(all(args).sub(Multiset::<Seq<char>>::empty()) =~= all(args));
            assert(ready(wr, c1, in_function(), functions));
            lemma_block(c1, body, in_function(), floats, wr, functions);
            let wi = through(wr, inner);
            lemma_with_deletes(w3, inner, args, inner.len() as int);
            let wd = through(w3, body_code);
            lemma_through_both(w, seq![over, door] + plain(guard) + new_variables(rev), body_code);
            lemma_through_one(wd, close);
            lemma_through_both(
                w,
                seq![over, door] + plain(guard) + new_variables(rev) + body_code,
                seq![close],
            );
            let we = walk_item(wd, close);
            assert(through(w, l.code) == we);
            assert(wd.live is None);
            assert(wd.labels.contains_key(end) == w1.labels.contains_key(end)) by {
                if wd.labels.contains_key(end) && !w3.labels.contains_key(end) {
                    assert(c1.label_count <= end);
                }
            }
            if let Some(m) = w.live {
                lemma_made_none(m);
                assert(w1.labels.contains_key(end) && w1.labels[end] == Some(m));
                assert(wd.labels.contains_key(end) && wd.labels[end] == Some(m));
                assert(we.live == Some(m));
            } else {
                assert(!w1.labels.contains_key(end));
                assert(we.live is None);
            }
            assert(grown(w.labels, we.labels, c.label_count)) by {
                assert forall|l: usize| #[trigger] w.labels.contains_key(l) implies we.labels.contains_key(l)
                    && we.labels[l] == w.labels[l] by {
                    assert(w3.labels.contains_key(l) && w3.labels[l] == w.labels[l]);
                    assert(wd.labels.contains_key(l) && wd.labels[l] == w.labels[l]);
                }
                assert forall|l: usize| #[trigger] we.labels.contains_key(l) && !w.labels.contains_key(l) implies c.label_count
                    <= l by {
                    if l != end {
                        assert(wd.labels.contains_key(l));
                        if !w3.labels.contains_key(l) {
                            assert(c1.label_count <= l);
                        }
                    }
                }
            }
        },
        _ => {},
    }
}

/// The code of the first `n` statements of a block whose functions end in a `return` keeps
/// a walk.
proof fn lemma_statements(
    c: CompilerModel,
    statements: Seq<StatementModel>,
    n: int,
    scope: ScopeModel,
    floats: Seq<(Seq<char>, FloatModel)>,
    w: Walk,
    functions: Seq<(Seq<char>, usize)>,
)
    requires
        0 <= n <= statements.len(),
        ready(w, c, scope, functions),
        all_return(statements, n),
        lower_statements(c, statements, n, scope, floats) is Ok,
        placed(lower_statements(c, statements, n, scope, floats)->Ok_0.compiler, functions),
    ensures
        ({
            let l = lower_statements(c, statements, n, scope, floats)->Ok_0;
            &&& passed(w, c, through(w, l.code), l.compiler, l.names)
            &&& n > 0 && statements[n - 1] is Return ==> through(w, l.code).live is None
        }),
    decreases statements, n,
{
    if n <= 0 {
        lemma_through_none(w);
        if let Some(m) = w.live {
            lemma_made_none(m);
        }
        assert(grown(w.labels, w.labels, c.label_count));
    } else {
        let before = lower_statements(c, statements, n - 1, scope, floats)->Ok_0;
        let here = entered(scope, before.names);
        let last = lower_statement(before.compiler, statements[n - 1], here, floats)->Ok_0;
        lemma_ext_statements(c, statements, n - 1, scope, floats);
        lemma_ext_statement(before.compiler, statements[n - 1], here, floats);
        lemma_placed_mid(c, before.compiler, last.compiler, functions);
        lemma_statements(c, statements, n - 1, scope, floats, w, functions);
        let wb = through(w, before.code);
        lemma_ready_entered(w, c, wb, before.compiler, scope, before.names, functions);
        lemma_statement(before.compiler, statements[n - 1], here, floats, wb, functions);
        let w2 = through(wb, last.code);
        lemma_through_both(w, before.code, last.code);
        lemma_all_both(before.names, last.names);
        if let Some(m2) = w2.live {
            let m = w.live->Some_0;
            assert(m.names.add(all(before.names)).add(all(last.names)) =~= m.names.add(
                all(before.names + last.names),
            ));
        }
        lemma_grown_twice(w.labels, wb.labels, w2.labels, c.label_count, before.compiler.label_count);
    }
}

/// The code of a block whose functions end in a `return` keeps a walk, and the variables
/// alive; no way leads on from a block that ends in a `return`.
proof fn lemma_block(
    c: CompilerModel,
    statements: Seq<StatementModel>,
    scope: ScopeModel,
    floats: Seq<(Seq<char>, FloatModel)>,
    w: Walk,
    functions: Seq<(Seq<char>, usize)>,
)
    requires
        ready(w, c, scope, functions),
        all_return(statements, statements.len() as int),
        lower_block(c, statements, scope, floats) is Ok,
        placed(lower_block(c, statements, scope, floats)->Ok_0.0, functions),
    ensures
        ({
            let c2 = lower_block(c, statements, scope, floats)->Ok_0.0;
            let w2 = through(w, lower_block(c, statements, scope, floats)->Ok_0.1);
            &&& w2.ok
            &&& c.label_count <= c2.label_count
            &&& below(w2.labels, c2.label_count)
            &&& grown(w.labels, w2.labels, c.label_count)
            &&& w2.entries == w.entries
            &&& w2.owed == w.owed
            &&& (w2.live is None || w2.live == w.live)
            &&& statements.len() > 0 && statements.last() is Return ==> w2.live is None
        }),
    decreases statements, statements.len() + 1,
{
    let n = statements.len() as int;
    lemma_statements(c, statements, n, scope, floats, w, functions);
    let l = lower_statements(c, statements, n, scope, floats)->Ok_0;
    let wn = through(w, l.code);
    lemma_walk_deletes(wn, l.names, l.names.len() as int);
    lemma_through_both(w, l.code, deletes(l.names));
    if let Some(m2) = wn.live {
        let m = w.live->Some_0;
        assert(m.names.add(all(l.names)).sub(all(l.names)) =~= m.names);
    }
}

/// The code of a program whose functions end in a `return` is balanced.
pub proof fn law_program_is_balanced(statements: Seq<StatementModel>, floats: Seq<(Seq<char>, FloatModel)>)
    requires
        all_return(statements, statements.len() as int),
        lower_block(fresh(), statements, outermost(), floats) is Ok,
    ensures
        ({
            let lowered = lower_block(fresh(), statements, outermost(), floats)->Ok_0;
            balanced(lowered.1, entries_of(lowered.0.functions))
        }),
{
    let lowered = lower_block(fresh(), statements, outermost(), floats)->Ok_0;
    let functions = lowered.0.functions;
    let w = start_walk(entries_of(functions));
    lemma_ext_block(fresh(), statements, outermost(), floats);
    assert(placed(fresh(), functions));
    assert(placed(lowered.0, functions));
    assert(ready(w, fresh(), outermost(), functions));
    lemma_block(fresh(), statements, outermost(), floats, w, functions);
}

} // verus!
