//! The built-in functions of the machine, and what a step leaves to the driver.

use crate::error::VmError;
use crate::error::VmErrorModel;
use crate::format_law::count_placeholders;
use crate::format_law::law_filled_length;
use crate::format_law::law_texts_beyond_are_dropped;
use crate::format_law::smaller;
use crate::format_law::splice;
use crate::format_law::spliced;
use crate::format_law::texts_model;
use crate::format_law::total_length;
use crate::operators::FloatTask;
use crate::operators::FloatTaskModel;
use crate::text::chars_of;
use crate::text::string_of;
use crate::text::text_eq;
use crate::value::append_joined;
use crate::value::copy_value;
use crate::value::joined;
use crate::value::render_value;
use crate::value::scalar_of;
use crate::value::values_model;
use crate::value::StringValue;
use crate::value::Value;
use crate::value::ValueModel;
use crate::value::ValueType;
use crate::value::ValueTypeModel;
use vstd::prelude::*;

verus! {

/// What a step of the machine leaves for its driver to do.
#[derive(Debug, PartialEq)]
pub enum StepOutcome {
    /// Nothing.
    Continue,
    /// Nothing: the machine had halted before the step.
    Halted,
    /// Write the text to standard output.
    Output(String),
    /// Carry out the float operation and push its result on the machine's stack.
    Float(FloatTask),
}

/// A [`StepOutcome`] as a mathematical value.
pub enum OutcomeModel {
    Continue,
    Halted,
    Output(Seq<char>),
    Float(FloatTaskModel),
}

impl View for StepOutcome {
    type V = OutcomeModel;

    open spec fn view(&self) -> OutcomeModel {
        match self {
            StepOutcome::Continue => OutcomeModel::Continue,
            StepOutcome::Halted => OutcomeModel::Halted,
            StepOutcome::Output(s) => OutcomeModel::Output(s@),
            StepOutcome::Float(t) => OutcomeModel::Float(t@),
        }
    }
}

/// Whether `name` is the name of a built-in function.
pub open spec fn is_builtin(name: Seq<char>) -> bool {
    name == "print"@ || name == "println"@ || name == "format"@ || name == "assert"@ || name
        == "push"@ || name == "pop"@ || name == "read_element"@ || name == "write_element"@
}

/// The number of arguments that a call finds on top of the stack: the integer on top, which
/// must not exceed the number of values below it.
pub open spec fn argument_count(stack: Seq<ValueModel>) -> Result<int, VmErrorModel> {
    if stack.len() == 0 {
        Err(VmErrorModel::Stack)
    } else {
        match scalar_of(stack.last()) {
            None => Err(VmErrorModel::Type),
            Some(ValueTypeModel::Int(i)) => if 0 <= i.value() <= stack.len() - 1 {
                Ok(i.value())
            } else {
                Err(VmErrorModel::Stack)
            },
            Some(_) => Err(VmErrorModel::BuiltinArg),
        }
    }
}

/// The elements of `v` where it is a plain vector.
pub open spec fn as_vector(v: ValueModel) -> Option<Seq<ValueModel>> {
    match v {
        ValueModel::Value(ValueTypeModel::Vector(items)) => Some(items),
        _ => None,
    }
}

/// The integer of `v` where it is a plain integer.
pub open spec fn as_index(v: ValueModel) -> Option<int> {
    match v {
        ValueModel::Value(ValueTypeModel::Int(i)) => Some(i.value()),
        _ => None,
    }
}

/// A vector as a value.
pub open spec fn vector(items: Seq<ValueModel>) -> ValueModel {
    ValueModel::Value(ValueTypeModel::Vector(items))
}

/// The texts of the first `n` of `args`, in order. `None` where one of them has no text.
pub open spec fn rendered(args: Seq<ValueModel>, n: int) -> Option<Seq<Seq<char>>>
    decreases n,
{
    if n <= 0 || n > args.len() {
        Some(Seq::empty())
    } else {
        match (rendered(args, n - 1), render_value(args[n - 1])) {
            (Some(before), Some(last)) => Some(before.push(last)),
            _ => None,
        }
    }
}

/// `template` with its `{}` replaced by the texts of `args`, in one pass from the left: the
/// first `{}` by the first argument, and so on. What an argument puts in is not looked at
/// again, a `{}` without an argument stays, and an argument without a `{}` is dropped.
/// `None` where an argument has no text.
pub open spec fn formatted(template: Seq<char>, args: Seq<ValueModel>) -> Option<Seq<char>> {
    match rendered(args, args.len() as int) {
        Some(texts) => Some(spliced(template, texts)),
        None => None,
    }
}

/// What the built-in `name` does with the arguments `args`: the values that it pushes, in
/// order, and what it leaves to the driver.
///
/// `print` and `println` write the texts of their arguments with a space between each two,
/// `println` with a line feed after them. `format` takes a string and replaces its `{}` by
/// the further arguments in one pass from the left. `assert` takes a boolean and fails where it is
/// `false`, with the texts of the further arguments as its message. `push` appends a value to
/// a vector, `pop` takes the last element off and pushes it after the vector,
/// `read_element` pushes the element at an index after the vector, and `write_element`
/// replaces the element at an index.
pub open spec fn builtin(name: Seq<char>, args: Seq<ValueModel>) -> Result<
    (Seq<ValueModel>, OutcomeModel),
    VmErrorModel,
> {
    if name == "print"@ {
        match joined(args, args.len() as int, seq![' ']) {
            Some(t) => Ok((Seq::empty(), OutcomeModel::Output(t))),
            None => Err(VmErrorModel::Type),
        }
    } else if name == "println"@ {
        match joined(args, args.len() as int, seq![' ']) {
            Some(t) => Ok((Seq::empty(), OutcomeModel::Output(t.push('\n')))),
            None => Err(VmErrorModel::Type),
        }
    } else if name == "format"@ {
        if args.len() < 1 {
            Err(VmErrorModel::BuiltinArg)
        } else {
            match args[0] {
                ValueModel::Value(ValueTypeModel::String(template)) => match formatted(
                    template,
                    args.skip(1),
                ) {
                    Some(t) => Ok(
                        (seq![ValueModel::Value(ValueTypeModel::String(t))], OutcomeModel::Continue),
                    ),
                    None => Err(VmErrorModel::Type),
                },
                _ => Err(VmErrorModel::BuiltinArg),
            }
        }
    } else if name == "assert"@ {
        if args.len() < 2 {
            Err(VmErrorModel::BuiltinArg)
        } else {
            match args[0] {
                ValueModel::Value(ValueTypeModel::Bool(b)) => if b {
                    Ok((Seq::empty(), OutcomeModel::Continue))
                } else {
                    match joined(args.skip(1), args.len() - 1, seq![' ']) {
                        Some(t) => Err(VmErrorModel::AssertionFailure(t)),
                        None => Err(VmErrorModel::Type),
                    }
                },
                _ => Err(VmErrorModel::BuiltinArg),
            }
        }
    } else if name == "push"@ {
        if args.len() != 2 {
            Err(VmErrorModel::BuiltinArg)
        } else {
            match as_vector(args[0]) {
                Some(list) => Ok((seq![vector(list.push(args[1]))], OutcomeModel::Continue)),
                None => Err(VmErrorModel::BuiltinArg),
            }
        }
    } else if name == "pop"@ {
        if args.len() != 1 {
            Err(VmErrorModel::BuiltinArg)
        } else {
            match as_vector(args[0]) {
                Some(list) => if list.len() == 0 {
                    Err(VmErrorModel::BuiltinArg)
                } else {
                    Ok((seq![vector(list.drop_last()), list.last()], OutcomeModel::Continue))
                },
                None => Err(VmErrorModel::BuiltinArg),
            }
        }
    } else if name == "read_element"@ {
        if args.len() != 2 {
            Err(VmErrorModel::BuiltinArg)
        } else {
            match (as_vector(args[0]), as_index(args[1])) {
                (Some(list), Some(i)) => if 0 <= i < list.len() {
                    Ok((seq![vector(list), list[i]], OutcomeModel::Continue))
                } else {
                    Err(VmErrorModel::BuiltinArg)
                },
                _ => Err(VmErrorModel::BuiltinArg),
            }
        }
    } else if name == "write_element"@ {
        if args.len() != 3 {
            Err(VmErrorModel::BuiltinArg)
        } else {
            match (as_vector(args[0]), as_index(args[1])) {
                (Some(list), Some(i)) => if 0 <= i < list.len() {
                    Ok((seq![vector(list.update(i, args[2]))], OutcomeModel::Continue))
                } else {
                    Err(VmErrorModel::BuiltinArg)
                },
                _ => Err(VmErrorModel::BuiltinArg),
            }
        }
    } else {
        Err(VmErrorModel::Name)
    }
}

/// What is left of `stack` once a call has taken its argument count and, with it, `n`
/// arguments off.
pub open spec fn below_arguments(stack: Seq<ValueModel>, n: int) -> Seq<ValueModel> {
    stack.take(stack.len() - 1 - n)
}

/// The `n` arguments of a call, which lie under the argument count on top of `stack`.
pub open spec fn arguments(stack: Seq<ValueModel>, n: int) -> Seq<ValueModel> {
    stack.subrange(stack.len() - 1 - n, stack.len() - 1)
}

/// What a call of the built-in `name` does to the stack, and what it leaves to the driver.
pub open spec fn call_builtin(stack: Seq<ValueModel>, name: Seq<char>) -> Result<
    (Seq<ValueModel>, OutcomeModel),
    VmErrorModel,
> {
    match argument_count(stack) {
        Err(e) => Err(e),
        Ok(n) => match builtin(name, arguments(stack, n)) {
            Ok((pushed, outcome)) => Ok((below_arguments(stack, n) + pushed, outcome)),
            Err(e) => Err(e),
        },
    }
}

/// Whether `name` is the name of a built-in function.
pub fn builtin_name(name: &str) -> (r: bool)
    ensures
        r == is_builtin(name@),
{
    text_eq(name, "print") || text_eq(name, "println") || text_eq(name, "format") || text_eq(
        name,
        "assert",
    ) || text_eq(name, "push") || text_eq(name, "pop") || text_eq(name, "read_element") || text_eq(
        name,
        "write_element",
    )
}

/// Takes the argument count off the stack, and then the arguments: they are returned in
/// the order in which they were pushed.
pub fn take_arguments(stack: &mut Vec<Value>) -> (r: Result<Vec<Value>, VmError>)
    ensures
        match argument_count(values_model(old(stack)@)) {
            Ok(n) => r matches Ok(args) && values_model(args@) == arguments(
                values_model(old(stack)@),
                n,
            ) && values_model(final(stack)@) == below_arguments(values_model(old(stack)@), n),
            Err(e) => r matches Err(x) && x@ == e,
        },
{
    let ghost before = values_model(stack@);
    match stack.pop() {
        None => Err(VmError::Stack),
        Some(top) => match top.to_val() {
            Err(e) => Err(e),
            Ok(ValueType::Int(i)) => {
                let count = i.as_i64();
                if count < 0 || count as u64 > stack.len() as u64 {
                    return Err(VmError::Stack);
                }
                let at = stack.len() - count as usize;
                let args = stack.split_off(at);
                assert(values_model(args@) =~= arguments(before, count as int));
                assert(values_model(stack@) =~= below_arguments(before, count as int));
                Ok(args)
            },
            Ok(_) => Err(VmError::BuiltinArg),
        },
    }
}

/// Where the first `n` arguments have no texts, no longer run of them has.
pub proof fn lemma_rendered_fails(args: Seq<ValueModel>, n: int, m: int)
    requires
        0 < n <= m <= args.len(),
        rendered(args, n) is None,
    ensures
        rendered(args, m) is None,
    decreases m - n,
{
    if n < m {
        lemma_rendered_fails(args, n, m - 1);
    }
}

/// The texts of `args` with a space between each two.
fn spaced(args: &Vec<Value>) -> (r: Option<String>)
    ensures
        match joined(values_model(args@), args.len() as int, seq![' ']) {
            Some(t) => r matches Some(s) && s@ == t,
            None => r is None,
        },
{
    let mut out = String::new();
    proof {
        reveal_strlit(" ");
        assert(" "@ =~= seq![' ']);
    }
    if append_joined(&mut out, args, " ") {
        assert(out@ =~= joined(values_model(args@), args.len() as int, seq![' ']).unwrap());
        Some(out)
    } else {
        None
    }
}

/// `template` with its `{}` replaced by the texts of `args`, in one pass from the left.
fn fill(template: &str, args: &Vec<Value>) -> (r: Option<String>)
    ensures
        match formatted(template@, values_model(args@)) {
            Some(t) => r matches Some(s) && s@ == t,
            None => r is None,
        },
{
    let mut texts: Vec<Vec<char>> = Vec::new();
    let mut i: usize = 0;
    assert(texts_model(texts@) =~= Seq::empty());
    while i < args.len()
        invariant
            i <= args.len(),
            rendered(values_model(args@), i as int) == Some(texts_model(texts@)),
        decreases args.len() - i,
    {
        match args[i].as_string() {
            None => {
                proof {
                    lemma_rendered_fails(values_model(args@), i as int + 1, args.len() as int);
                }
                return None;
            },
            Some(with) => {
                let ghost before = texts_model(texts@);
                let chars = chars_of(with.as_str());
                texts.push(chars);
                assert(texts_model(texts@) =~= before.push(with@));
            },
        }
        i += 1;
    }
    let text = splice(&chars_of(template), &texts);
    Some(string_of(&text))
}

fn vector_of(v: Value) -> (r: Option<Vec<Value>>)
    ensures
        match as_vector(v@) {
            Some(items) => r matches Some(x) && values_model(x@) == items,
            None => r is None,
        },
{
    match v {
        Value::Value(ValueType::Vector(items)) => Some(items),
        _ => None,
    }
}

fn index_of(v: &Value, len: usize) -> (r: Option<usize>)
    ensures
        match as_index(v@) {
            Some(i) => if 0 <= i < len {
                r == Some(i as usize)
            } else {
                r is None
            },
            None => r is None,
        },
{
    match v {
        Value::Value(ValueType::Int(i)) => {
            let index = i.as_i64();
            if index < 0 || index as u64 >= len as u64 {
                None
            } else {
                Some(index as usize)
            }
        },
        _ => None,
    }
}

/// Carries out the built-in `name` on the arguments `args`: returns the values to push, in
/// order, and what is left to the driver.
pub fn run_builtin(name: &str, args: Vec<Value>) -> (r: Result<(Vec<Value>, StepOutcome), VmError>)
    ensures
        match builtin(name@, values_model(args@)) {
            Ok((pushed, outcome)) => r matches Ok(x) && values_model(x.0@) == pushed && x.1@
                == outcome,
            Err(e) => r matches Err(x) && x@ == e,
        },
{
    let mut args = args;
    let ghost given = values_model(args@);
    let mut pushed: Vec<Value> = Vec::new();
    assert(values_model(pushed@) =~= Seq::empty());
    if text_eq(name, "print") {
        match spaced(&args) {
            Some(text) => Ok((pushed, StepOutcome::Output(text))),
            None => Err(VmError::Type),
        }
    } else if text_eq(name, "println") {
        match spaced(&args) {
            Some(text) => {
                let mut text = text;
                text.push('\n');
                Ok((pushed, StepOutcome::Output(text)))
            },
            None => Err(VmError::Type),
        }
    } else if text_eq(name, "format") {
        if args.len() < 1 {
            return Err(VmError::BuiltinArg);
        }
        let first = args.remove(0);
        assert(values_model(args@) =~= given.skip(1));
        let template = match first {
            Value::Value(ValueType::String(s)) => s.value,
            _ => {
                return Err(VmError::BuiltinArg);
            },
        };
        let text = match fill(template.as_str(), &args) {
            Some(text) => text,
            None => {
                return Err(VmError::Type);
            },
        };
        let ghost filled = text@;
        pushed.push(Value::Value(ValueType::String(StringValue::new(text))));
        assert(values_model(pushed@) =~= seq![ValueModel::Value(ValueTypeModel::String(filled))]);
        Ok((pushed, StepOutcome::Continue))
    } else if text_eq(name, "assert") {
        if args.len() < 2 {
            return Err(VmError::BuiltinArg);
        }
        let first = args.remove(0);
        assert(values_model(args@) =~= given.skip(1));
        match first {
            Value::Value(ValueType::Bool(b)) => {
                if b.value {
                    Ok((pushed, StepOutcome::Continue))
                } else {
                    match spaced(&args) {
                        Some(text) => Err(VmError::AssertionFailure(text)),
                        None => Err(VmError::Type),
                    }
                }
            },
            _ => Err(VmError::BuiltinArg),
        }
    } else if text_eq(name, "push") {
        if args.len() != 2 {
            return Err(VmError::BuiltinArg);
        }
        let value = args.pop().unwrap();
        let first = args.pop().unwrap();
        match vector_of(first) {
            Some(list) => {
                let mut list = list;
                let ghost before = values_model(list@);
                list.push(value);
                assert(values_model(list@) =~= before.push(given[1]));
                pushed.push(Value::Value(ValueType::Vector(list)));
                assert(values_model(pushed@) =~= seq![vector(before.push(given[1]))]);
                Ok((pushed, StepOutcome::Continue))
            },
            None => Err(VmError::BuiltinArg),
        }
    } else if text_eq(name, "pop") {
        if args.len() != 1 {
            return Err(VmError::BuiltinArg);
        }
        let first = args.pop().unwrap();
        match vector_of(first) {
            Some(list) => {
                let mut list = list;
                let ghost before = values_model(list@);
                match list.pop() {
                    None => Err(VmError::BuiltinArg),
                    Some(last) => {
                        assert(values_model(list@) =~= before.drop_last());
                        assert(last@ == before.last());
                        pushed.push(Value::Value(ValueType::Vector(list)));
                        pushed.push(last);
                        assert(values_model(pushed@) =~= seq![
                            vector(before.drop_last()),
                            before.last(),
                        ]);
                        Ok((pushed, StepOutcome::Continue))
                    },
                }
            },
            None => Err(VmError::BuiltinArg),
        }
    } else if text_eq(name, "read_element") {
        if args.len() != 2 {
            return Err(VmError::BuiltinArg);
        }
        let second = args.pop().unwrap();
        let first = args.pop().unwrap();
        match vector_of(first) {
            Some(list) => match index_of(&second, list.len()) {
                Some(i) => {
                    let item = copy_value(&list[i]);
                    let ghost before = values_model(list@);
                    pushed.push(Value::Value(ValueType::Vector(list)));
                    pushed.push(item);
                    assert(values_model(pushed@) =~= seq![vector(before), before[i as int]]);
                    Ok((pushed, StepOutcome::Continue))
                },
                None => Err(VmError::BuiltinArg),
            },
            None => Err(VmError::BuiltinArg),
        }
    } else if text_eq(name, "write_element") {
        if args.len() != 3 {
            return Err(VmError::BuiltinArg);
        }
        let value = args.pop().unwrap();
        let second = args.pop().unwrap();
        let first = args.pop().unwrap();
        match vector_of(first) {
            Some(list) => match index_of(&second, list.len()) {
                Some(i) => {
                    let mut list = list;
                    let ghost before = values_model(list@);
                    list.set(i, value);
                    assert(values_model(list@) =~= before.update(i as int, given[2]));
                    pushed.push(Value::Value(ValueType::Vector(list)));
                    assert(values_model(pushed@) =~= seq![vector(before.update(i as int, given[2]))]);
                    Ok((pushed, StepOutcome::Continue))
                },
                None => Err(VmError::BuiltinArg),
            },
            None => Err(VmError::BuiltinArg),
        }
    } else {
        Err(VmError::Name)
    }
}



/// `push` and then `pop`: the vector that `push` gave goes back to the vector it was made
/// from, and the value that was pushed comes out after it.
pub proof fn law_push_then_pop(list: Seq<ValueModel>, x: ValueModel)
    ensures
        builtin("push"@, seq![vector(list), x]) == Ok::<(Seq<ValueModel>, OutcomeModel), VmErrorModel>(
            (seq![vector(list.push(x))], OutcomeModel::Continue),
        ),
        builtin("pop"@, seq![vector(list.push(x))]) == Ok::<
            (Seq<ValueModel>, OutcomeModel),
            VmErrorModel,
        >((seq![vector(list), x], OutcomeModel::Continue)),
{
    reveal_strlit("print");
    reveal_strlit("println");
    reveal_strlit("format");
    reveal_strlit("assert");
    reveal_strlit("push");
    reveal_strlit("pop");
    assert("push"@.len() == 4);
    assert("pop"@.len() == 3);
    assert("print"@.len() == 5);
    assert("println"@.len() == 7);
    assert("format"@.len() == 6);
    assert("assert"@.len() == 6);
    assert(list.push(x).drop_last() =~= list);
    assert(list.push(x).last() == x);
}



/// The texts of values that all have one.
pub proof fn lemma_rendered_all(args: Seq<ValueModel>, texts: Seq<Seq<char>>, n: int)
    requires
        0 <= n <= args.len(),
        texts.len() == args.len(),
        forall|k: int| 0 <= k < args.len() ==> render_value(#[trigger] args[k]) == Some(texts[k]),
    ensures
        rendered(args, n) == Some(texts.take(n)),
    decreases n,
{
    if n > 0 {
        lemma_rendered_all(args, texts, n - 1);
        assert(render_value(args[n - 1]) == Some(texts[n - 1]));
        assert(texts.take(n - 1).push(texts[n - 1]) =~= texts.take(n));
    } else {
        assert(texts.take(0) =~= Seq::empty());
    }
}

/// `format` replaces the placeholders of its template in one pass from the left, the first
/// by the text of the first argument and so on. It replaces as many as the template has,
/// or as there are arguments, whichever is less: the arguments beyond that number are
/// dropped, the placeholders beyond it stay, and the text grows by the texts put in less
/// two characters for each.
pub proof fn law_format(template: Seq<char>, args: Seq<ValueModel>, texts: Seq<Seq<char>>)
    requires
        texts.len() == args.len(),
        forall|k: int| 0 <= k < args.len() ==> render_value(#[trigger] args[k]) == Some(texts[k]),
    ensures
        builtin("format"@, seq![ValueModel::Value(ValueTypeModel::String(template))] + args) == Ok::<
            (Seq<ValueModel>, OutcomeModel),
            VmErrorModel,
        >(
            (
                seq![ValueModel::Value(ValueTypeModel::String(spliced(template, texts)))],
                OutcomeModel::Continue,
            ),
        ),
        spliced(template, texts) == spliced(
            template,
            texts.take(smaller(count_placeholders(template) as int, args.len() as int)),
        ),
        spliced(template, texts).len() == template.len() - 2 * smaller(
            count_placeholders(template) as int,
            args.len() as int,
        ) + total_length(texts, smaller(count_placeholders(template) as int, args.len() as int)),
{
    reveal_strlit("print");
    reveal_strlit("println");
    reveal_strlit("format");
    assert("print"@.len() == 5);
    assert("println"@.len() == 7);
    assert("format"@.len() == 6);
    let given = seq![ValueModel::Value(ValueTypeModel::String(template))] + args;
    assert(given.skip(1) =~= args);
    lemma_rendered_all(args, texts, args.len() as int);
    assert(texts.take(args.len() as int) =~= texts);
    law_texts_beyond_are_dropped(template, texts);
    law_filled_length(template, texts);
}

} // verus!
