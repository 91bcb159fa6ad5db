//! The values of a running program: plain values, records, and the layouts of classes.

use crate::error::VmError;
use crate::error::VmErrorModel;
use crate::int_value::IntValue;
use crate::text::decimal;
use crate::text::decimal_text;
use crate::text::has_dot;
use crate::text::head_of;
use crate::text::split_name;
use crate::text::contains_dot;
use crate::text::tail_of;
use crate::text::text_eq;
use vstd::string::StringExecFns;
use vstd::prelude::*;

verus! {

broadcast use vstd::std_specs::vec::group_vec_axioms;

/// A string as a runtime value.
#[derive(Debug, PartialEq)]
pub struct StringValue {
    pub value: String,
}

/// A boolean as a runtime value.
#[derive(Clone, Copy, Debug, PartialEq)]
pub struct BoolValue {
    pub value: bool,
}

/// A floating-point number as the machine carries it: the bits of its IEEE 754 form, at 32 or
/// at 64 bits, and the text that it prints as. The machine moves such numbers and prints
/// them; it never computes with them.
#[derive(Debug, PartialEq)]
pub enum FloatValue {
    Float32(u32, String),
    Float64(u64, String),
}

/// A runtime value that is no object.
#[derive(Debug, PartialEq)]
pub enum ValueType {
    Int(IntValue),
    Float(FloatValue),
    Bool(BoolValue),
    String(StringValue),
    Vector(Vec<Value>),
}

/// A runtime value.
#[derive(Debug, PartialEq)]
pub enum Value {
    Object(Object),
    Value(ValueType),
}

/// A record: the name of its class, and its members in the order in which they were first
/// set. A plain variable is a record of one member, `__value__`.
///
/// The members stand in a vector and are found by name, the first of a name: a record holds
/// records, and the map keyed by strings that Verus reasons about takes no value type that
/// holds the map itself.
#[derive(Debug, PartialEq)]
pub struct Object {
    pub name: String,
    pub values: Vec<(String, Value)>,
}

/// A [`FloatValue`] as a mathematical value.
pub struct FloatModel {
    pub wide: bool,
    pub bits: int,
    pub text: Seq<char>,
}

/// A [`ValueType`] as a mathematical value.
pub enum ValueTypeModel {
    Int(IntValue),
    Float(FloatModel),
    Bool(bool),
    String(Seq<char>),
    Vector(Seq<ValueModel>),
}

/// A [`Value`] as a mathematical value.
pub enum ValueModel {
    Object(ObjectModel),
    Value(ValueTypeModel),
}

/// An [`Object`] as a mathematical value.
pub struct ObjectModel {
    pub name: Seq<char>,
    pub members: Seq<(Seq<char>, ValueModel)>,
}

impl View for FloatValue {
    type V = FloatModel;

    open spec fn view(&self) -> FloatModel {
        match self {
            FloatValue::Float32(bits, text) => FloatModel {
                wide: false,
                bits: *bits as int,
                text: text@,
            },
            FloatValue::Float64(bits, text) => FloatModel {
                wide: true,
                bits: *bits as int,
                text: text@,
            },
        }
    }
}

/// The value `v` as a mathematical value.
pub open spec fn value_model(v: Value) -> ValueModel
    decreases v,
{
    match v {
        Value::Object(o) => ValueModel::Object(object_model(o)),
        Value::Value(t) => ValueModel::Value(value_type_model(t)),
    }
}

/// The plain value `t` as a mathematical value.
pub open spec fn value_type_model(t: ValueType) -> ValueTypeModel
    decreases t,
{
    match t {
        ValueType::Int(i) => ValueTypeModel::Int(i),
        ValueType::Float(f) => ValueTypeModel::Float(f@),
        ValueType::Bool(b) => ValueTypeModel::Bool(b.value),
        ValueType::String(s) => ValueTypeModel::String(s.value@),
        ValueType::Vector(items) => ValueTypeModel::Vector(values_model(items@)),
    }
}

/// The values of `items` as mathematical values.
pub open spec fn values_model(items: Seq<Value>) -> Seq<ValueModel>
    decreases items,
{
    Seq::new(
        items.len(),
        |i: int|
            if 0 <= i < items.len() {
                value_model(items[i])
            } else {
                arbitrary()
            },
    )
}

/// The members of `members` as mathematical values.
pub open spec fn members_model(members: Seq<(String, Value)>) -> Seq<(Seq<char>, ValueModel)>
    decreases members,
{
    Seq::new(
        members.len(),
        |i: int|
            if 0 <= i < members.len() {
                (members[i].0@, value_model(members[i].1))
            } else {
                arbitrary()
            },
    )
}

/// The record `o` as a mathematical value.
pub open spec fn object_model(o: Object) -> ObjectModel
    decreases o,
{
    ObjectModel { name: o.name@, members: members_model(o.values@) }
}

impl View for ValueType {
    type V = ValueTypeModel;

    open spec fn view(&self) -> ValueTypeModel {
        value_type_model(*self)
    }
}

impl View for Value {
    type V = ValueModel;

    open spec fn view(&self) -> ValueModel {
        value_model(*self)
    }
}

impl View for Object {
    type V = ObjectModel;

    open spec fn view(&self) -> ObjectModel {
        object_model(*self)
    }
}



/// A copy of `f`.
pub fn copy_float(f: &FloatValue) -> (r: FloatValue)
    ensures
        r@ == f@,
{
    match f {
        FloatValue::Float32(bits, text) => FloatValue::Float32(*bits, text.clone()),
        FloatValue::Float64(bits, text) => FloatValue::Float64(*bits, text.clone()),
    }
}

/// A copy of `v`, members and elements included.
pub fn copy_value(v: &Value) -> (r: Value)
    ensures
        r@ == v@,
    decreases v,
{
    match v {
        Value::Object(o) => Value::Object(copy_object(o)),
        Value::Value(t) => Value::Value(copy_type(t)),
    }
}

/// A copy of `t`, elements included.
pub fn copy_type(t: &ValueType) -> (r: ValueType)
    ensures
        r@ == t@,
    decreases t,
{
    match t {
        ValueType::Int(i) => ValueType::Int(*i),
        ValueType::Float(f) => ValueType::Float(copy_float(f)),
        ValueType::Bool(b) => ValueType::Bool(*b),
        ValueType::String(s) => ValueType::String(StringValue { value: s.value.clone() }),
        ValueType::Vector(items) => ValueType::Vector(copy_values(items)),
    }
}

/// A copy of every value of `items`, in order.
pub fn copy_values(items: &Vec<Value>) -> (r: Vec<Value>)
    ensures
        values_model(r@) == values_model(items@),
    decreases items,
{
    let mut out: Vec<Value> = Vec::new();
    let mut i: usize = 0;
    while i < items.len()
        invariant
            i <= items.len(),
            out.len() == i,
            values_model(out@) == values_model(items@).take(i as int),
        decreases items.len() - i,
    {
        let c = copy_value(&items[i]);
        out.push(c);
        i += 1;
        assert(values_model(out@) =~= values_model(items@).take(i as int));
    }
    assert(values_model(items@).take(i as int) =~= values_model(items@));
    out
}

/// A copy of `o`, members included.
pub fn copy_object(o: &Object) -> (r: Object)
    ensures
        r@ == o@,
    decreases o,
{
    let mut out: Vec<(String, Value)> = Vec::new();
    let mut i: usize = 0;
    while i < o.values.len()
        invariant
            i <= o.values.len(),
            out.len() == i,
            members_model(out@) == members_model(o.values@).take(i as int),
        decreases o.values.len() - i,
    {
        let c = copy_value(&o.values[i].1);
        out.push((o.values[i].0.clone(), c));
        i += 1;
        assert(members_model(out@) =~= members_model(o.values@).take(i as int));
    }
    assert(members_model(o.values@).take(i as int) =~= members_model(o.values@));
    Object { name: o.name.clone(), values: out }
}

impl Clone for Value {
    fn clone(&self) -> (r: Self)
        ensures
            r@ == self@,
    {
        copy_value(self)
    }
}

impl Clone for ValueType {
    fn clone(&self) -> (r: Self)
        ensures
            r@ == self@,
    {
        copy_type(self)
    }
}

impl Clone for Object {
    fn clone(&self) -> (r: Self)
        ensures
            r@ == self@,
    {
        copy_object(self)
    }
}

impl Clone for FloatValue {
    fn clone(&self) -> (r: Self)
        ensures
            r@ == self@,
    {
        copy_float(self)
    }
}

impl Clone for StringValue {
    fn clone(&self) -> (r: Self)
        ensures
            r.value@ == self.value@,
    {
        StringValue { value: self.value.clone() }
    }
}



/// The name of the member under which a plain variable keeps its value.
pub open spec fn value_key() -> Seq<char> {
    "__value__"@
}

/// The index of the first member at or after `from` whose name is `key`; the number of
/// members where there is none.
pub open spec fn member_index(members: Seq<(Seq<char>, ValueModel)>, key: Seq<char>, from: int) -> int
    decreases members.len() - from,
{
    if from < 0 || from >= members.len() {
        members.len() as int
    } else if members[from].0 == key {
        from
    } else {
        member_index(members, key, from + 1)
    }
}

/// The value of the member `key`, if there is one.
pub open spec fn lookup(members: Seq<(Seq<char>, ValueModel)>, key: Seq<char>) -> Option<ValueModel> {
    let i = member_index(members, key, 0);
    if i < members.len() {
        Some(members[i].1)
    } else {
        None
    }
}

/// The members with `key` set to `v`: in place where the member exists, at the end where it
/// does not.
pub open spec fn put(members: Seq<(Seq<char>, ValueModel)>, key: Seq<char>, v: ValueModel) -> Seq<
    (Seq<char>, ValueModel),
> {
    let i = member_index(members, key, 0);
    if i < members.len() {
        members.update(i, (key, v))
    } else {
        members.push((key, v))
    }
}

/// The plain value that `v` stands for: `v` itself where it is plain, and for an object what
/// its member [`value_key`] stands for. `None` for an object without that member.
pub open spec fn scalar_of(v: ValueModel) -> Option<ValueTypeModel>
    decreases v,
{
    match v {
        ValueModel::Value(t) => Some(t),
        ValueModel::Object(o) => {
            let i = member_index(o.members, value_key(), 0);
            if 0 <= i < o.members.len() {
                scalar_of(o.members[i].1)
            } else {
                None
            }
        },
    }
}

/// What reading the value of an object gives: nothing for a record without the member
/// [`value_key`], the plain value that the member stands for, or a type error where the
/// member stands for none.
pub open spec fn object_value(o: ObjectModel) -> Result<Option<ValueTypeModel>, VmErrorModel> {
    match lookup(o.members, value_key()) {
        None => Ok(None),
        Some(inner) => match scalar_of(inner) {
            Some(t) => Ok(Some(t)),
            None => Err(VmErrorModel::Type),
        },
    }
}

/// What reading the member at the dotted path `path` of `o` gives: the plain value that the
/// member stands for. A type error where a step of the path names no member, leads through
/// a plain value, or ends at a record that stands for no plain value.
pub open spec fn member_at(o: ObjectModel, path: Seq<char>) -> Result<ValueTypeModel, VmErrorModel>
    decreases o,
{
    if has_dot(path) {
        let i = member_index(o.members, head_of(path), 0);
        if 0 <= i < o.members.len() {
            match o.members[i].1 {
                ValueModel::Object(inner) => member_at(inner, tail_of(path)),
                ValueModel::Value(_) => Err(VmErrorModel::Type),
            }
        } else {
            Err(VmErrorModel::Type)
        }
    } else {
        match lookup(o.members, path) {
            None => Err(VmErrorModel::Type),
            Some(v) => match scalar_of(v) {
                Some(t) => Ok(t),
                None => Err(VmErrorModel::Type),
            },
        }
    }
}

/// The object `o` with `v` written at the dotted path `path`. The last step of the path sets
/// a member, new or not; every step before it must name a member that is a record.
pub open spec fn with_member(o: ObjectModel, path: Seq<char>, v: ValueModel) -> Result<
    ObjectModel,
    VmErrorModel,
>
    decreases o,
{
    if has_dot(path) {
        let i = member_index(o.members, head_of(path), 0);
        if 0 <= i < o.members.len() {
            match o.members[i].1 {
                ValueModel::Object(inner) => match with_member(inner, tail_of(path), v) {
                    Ok(changed) => Ok(
                        ObjectModel {
                            name: o.name,
                            members: o.members.update(i, (head_of(path), ValueModel::Object(changed))),
                        },
                    ),
                    Err(e) => Err(e),
                },
                ValueModel::Value(_) => Err(VmErrorModel::Type),
            }
        } else {
            Err(VmErrorModel::Type)
        }
    } else {
        Ok(ObjectModel { name: o.name, members: put(o.members, path, v) })
    }
}

/// The texts of the first `n` of `items`, with `separator` between each two. `None` where one of
/// them has no text.
pub open spec fn joined(items: Seq<ValueModel>, n: int, separator: Seq<char>) -> Option<Seq<char>>
    decreases items, n,
{
    if n <= 0 || n > items.len() {
        Some(Seq::empty())
    } else {
        match (joined(items, n - 1, separator), render_value(items[n - 1])) {
            (Some(before), Some(last)) => if n == 1 {
                Some(last)
            } else {
                Some(before + separator + last)
            },
            _ => None,
        }
    }
}

/// The texts of the first `n` of `members`, each as its name in double quotes, a colon, a space
/// and the text of its value, with a comma and a space between each two.
pub open spec fn joined_members(members: Seq<(Seq<char>, ValueModel)>, n: int) -> Option<Seq<char>>
    decreases members, n,
{
    if n <= 0 || n > members.len() {
        Some(Seq::empty())
    } else {
        match (joined_members(members, n - 1), render_value(members[n - 1].1)) {
            (Some(before), Some(last)) => {
                let entry = seq!['"'] + members[n - 1].0 + seq!['"', ':', ' '] + last;
                if n == 1 {
                    Some(entry)
                } else {
                    Some(before + seq![',', ' '] + entry)
                }
            },
            _ => None,
        }
    }
}

/// The text of a plain value: an integer in decimal, a float as its own text, a boolean as
/// `true` or `false`, a string as itself, and a vector as its elements' texts between square
/// brackets, with a comma and a space between each two: a vector without elements is `[]`.
pub open spec fn render_type(t: ValueTypeModel) -> Option<Seq<char>>
    decreases t, 0int,
{
    match t {
        ValueTypeModel::Int(i) => Some(decimal(i.value())),
        ValueTypeModel::Float(f) => Some(f.text),
        ValueTypeModel::Bool(b) => Some(
            if b {
                "true"@
            } else {
                "false"@
            },
        ),
        ValueTypeModel::String(s) => Some(s),
        ValueTypeModel::Vector(items) => match joined(items, items.len() as int, seq![',', ' ']) {
            Some(inner) => Some(seq!['['] + inner + seq![']']),
            None => None,
        },
    }
}

/// The text of a value. A record with the member [`value_key`] has the text of that
/// member, and none where the member stands for no plain value. Any other record has its
/// class name in double quotes, a space, and its members between braces.
pub open spec fn render_value(v: ValueModel) -> Option<Seq<char>>
    decreases v, 0int,
{
    match v {
        ValueModel::Value(t) => render_type(t),
        ValueModel::Object(o) => {
            let i = member_index(o.members, value_key(), 0);
            if 0 <= i < o.members.len() {
                if scalar_of(o.members[i].1) is Some {
                    render_value(o.members[i].1)
                } else {
                    None
                }
            } else {
                describe(o)
            }
        },
    }
}

/// The text of a record as such: its class name in double quotes, a space, and between
/// braces its members, each as its name in double quotes, a colon, a space and the text of
/// its value, with a comma and a space between each two.
pub open spec fn describe(o: ObjectModel) -> Option<Seq<char>>
    decreases o, 0int,
{
    match joined_members(o.members, o.members.len() as int) {
        Some(inner) => Some(seq!['"'] + o.name + seq!['"', ' ', '{'] + inner + seq!['}']),
        None => None,
    }
}



/// The index of the first of `values` whose name is `key`; their number where there is none.
pub fn find_member(values: &Vec<(String, Value)>, key: &str) -> (r: usize)
    ensures
        r == member_index(members_model(values@), key@, 0),
        r <= values.len(),
        r < values.len() ==> values[r as int].0@ == key@,
{
    let mut i: usize = 0;
    while i < values.len()
        invariant
            i <= values.len(),
            member_index(members_model(values@), key@, 0) == member_index(
                members_model(values@),
                key@,
                i as int,
            ),
        decreases values.len() - i,
    {
        if text_eq(values[i].0.as_str(), key) {
            return i;
        }
        i += 1;
    }
    i
}

/// Whether `v` stands for a plain value.
pub fn has_scalar(v: &Value) -> (r: bool)
    ensures
        r == (scalar_of(v@) is Some),
    decreases v,
{
    match v {
        Value::Value(_) => true,
        Value::Object(o) => {
            let i = find_member(&o.values, "__value__");
            if i < o.values.len() {
                has_scalar(&o.values[i].1)
            } else {
                false
            }
        },
    }
}

impl Value {
    /// The plain value that `self` stands for, copied: `self` itself where it is plain, and
    /// for a record what its member `__value__` stands for. A type error for a record
    /// without that member.
    pub fn to_val(&self) -> (r: Result<ValueType, VmError>)
        ensures
            match scalar_of(self@) {
                Some(t) => r matches Ok(x) && x@ == t,
                None => r matches Err(e) && e@ == VmErrorModel::Type,
            },
        decreases self,
    {
        match self {
            Value::Value(t) => Ok(copy_type(t)),
            Value::Object(o) => {
                let i = find_member(&o.values, "__value__");
                if i < o.values.len() {
                    o.values[i].1.to_val()
                } else {
                    Err(VmError::Type)
                }
            },
        }
    }

    /// The integer `val` as a value.
    pub fn from_int_val(val: IntValue) -> (r: Self)
        ensures
            r@ == ValueModel::Value(ValueTypeModel::Int(val)),
    {
        Value::Value(ValueType::Int(val))
    }

    /// The boolean `val` as a value.
    pub fn from_bool(val: bool) -> (r: Self)
        ensures
            r@ == ValueModel::Value(ValueTypeModel::Bool(val)),
    {
        Value::Value(ValueType::Bool(BoolValue::new(val)))
    }

    /// The text of the value; `None` where it has none.
    pub fn as_string(&self) -> (r: Option<String>)
        ensures
            match render_value(self@) {
                Some(t) => r matches Some(s) && s@ == t,
                None => r is None,
            },
        decreases self, 1int,
    {
        match self {
            Value::Value(t) => t.as_string(),
            Value::Object(o) => {
                let i = find_member(&o.values, "__value__");
                if i < o.values.len() {
                    if has_scalar(&o.values[i].1) {
                        o.values[i].1.as_string()
                    } else {
                        None
                    }
                } else {
                    o.describe()
                }
            },
        }
    }
}

impl Object {
    /// A record of the class `name` without members.
    pub fn new(name: String) -> (r: Self)
        ensures
            r@ == (ObjectModel { name: name@, members: Seq::empty() }),
    {
        let r = Self { name, values: Vec::new() };
        assert(r@.members =~= Seq::empty());
        r
    }

    /// The text of the record as such; `None` where a member has none.
    pub fn describe(&self) -> (r: Option<String>)
        ensures
            match describe(self@) {
                Some(t) => r matches Some(s) && s@ == t,
                None => r is None,
            },
        decreases self, 0int,
    {
        let mut out = String::new();
        out.push('"');
        out.append(self.name.as_str());
        out.push('"');
        out.push(' ');
        out.push('{');
        let ghost opening = out@;
        let ghost members = members_model(self.values@);
        let mut k: usize = 0;
        while k < self.values.len()
            invariant
                k <= self.values.len(),
                members == members_model(self.values@),
                joined_members(members, k as int) matches Some(t) && out@ == opening + t,
            decreases self.values.len() - k,
        {
            let ghost before = joined_members(members, k as int).unwrap();
            match self.values[k].1.as_string() {
                None => {
                    proof {
                        lemma_joined_members_fails(members, k as int + 1, members.len() as int);
                    }
                    return None;
                },
                Some(text) => {
                    if k > 0 {
                        out.push(',');
                        out.push(' ');
                    }
                    out.push('"');
                    out.append(self.values[k].0.as_str());
                    out.push('"');
                    out.push(':');
                    out.push(' ');
                    out.append(text.as_str());
                    proof {
                        let entry = seq!['"'] + members[k as int].0 + seq!['"', ':', ' '] + text@;
                        if k > 0 {
                            assert(out@ =~= opening + (before + seq![',', ' '] + entry));
                        } else {
                            assert(before =~= Seq::<char>::empty());
                            assert(out@ =~= opening + entry);
                        }
                    }
                },
            }
            k += 1;
        }
        out.push('}');
        proof {
            let inner = joined_members(members, members.len() as int).unwrap();
            assert(out@ =~= seq!['"'] + self.name@ + seq!['"', ' ', '{'] + inner + seq!['}']);
        }
        Some(out)
    }
}

/// Where the first `n` members have no joint text, no longer run of them has one.
pub proof fn lemma_joined_members_fails(members: Seq<(Seq<char>, ValueModel)>, n: int, m: int)
    requires
        0 < n <= m <= members.len(),
        joined_members(members, n) is None,
    ensures
        joined_members(members, m) is None,
    decreases m - n,
{
    if n < m {
        lemma_joined_members_fails(members, n, m - 1);
    }
}

/// Where the first `n` values have no joint text, no longer run of them has one.
pub proof fn lemma_joined_fails(items: Seq<ValueModel>, n: int, m: int, separator: Seq<char>)
    requires
        0 < n <= m <= items.len(),
        joined(items, n, separator) is None,
    ensures
        joined(items, m, separator) is None,
    decreases m - n,
{
    if n < m {
        lemma_joined_fails(items, n, m - 1, separator);
    }
}

/// The texts of `items` with `separator` between each two, appended to `out`. `false`,
/// with `out` in no stated condition, where one of them has no text.
pub fn append_joined(out: &mut String, items: &Vec<Value>, separator: &str) -> (r: bool)
    ensures
        match joined(values_model(items@), items.len() as int, separator@) {
            Some(t) => r && final(out)@ == old(out)@ + t,
            None => !r,
        },
    decreases items, 0int,
{
    let ghost models = values_model(items@);
    let ghost opening = out@;
    let mut k: usize = 0;
    while k < items.len()
        invariant
            k <= items.len(),
            models == values_model(items@),
            joined(models, k as int, separator@) matches Some(t) && out@ == opening + t,
        decreases items.len() - k,
    {
        let ghost before = joined(models, k as int, separator@).unwrap();
        match items[k].as_string() {
            None => {
                proof {
                    lemma_joined_fails(models, k as int + 1, models.len() as int, separator@);
                }
                return false;
            },
            Some(text) => {
                if k > 0 {
                    out.append(separator);
                }
                out.append(text.as_str());
                proof {
                    if k > 0 {
                        assert(out@ =~= opening + (before + separator@ + text@));
                    } else {
                        assert(before =~= Seq::<char>::empty());
                        assert(out@ =~= opening + text@);
                    }
                }
            },
        }
        k += 1;
    }
    true
}

impl ValueType {
    /// The text of the value; `None` where an element of a vector has none.
    pub fn as_string(&self) -> (r: Option<String>)
        ensures
            match render_type(self@) {
                Some(t) => r matches Some(s) && s@ == t,
                None => r is None,
            },
        decreases self, 1int,
    {
        match self {
            ValueType::Int(i) => Some(decimal_text(i.as_i64())),
            ValueType::Float(f) => match f {
                FloatValue::Float32(_, text) => Some(text.clone()),
                FloatValue::Float64(_, text) => Some(text.clone()),
            },
            ValueType::Bool(b) => if b.value {
                Some("true".to_string())
            } else {
                Some("false".to_string())
            },
            ValueType::String(s) => Some(s.value.clone()),
            ValueType::Vector(items) => {
                let mut out = String::new();
                out.push('[');
                proof {
                    reveal_strlit(", ");
                    assert(", "@ =~= seq![',', ' ']);
                }
                if !append_joined(&mut out, items, ", ") {
                    return None;
                }
                out.push(']');
                proof {
                    let inner = joined(values_model(items@), items.len() as int, seq![',', ' ']).unwrap();
                    assert(out@ =~= seq!['['] + inner + seq![']']);
                }
                Some(out)
            },
        }
    }
}

impl BoolValue {
    /// The boolean `value` as a runtime value.
    pub fn new(value: bool) -> (r: Self)
        ensures
            r.value == value,
    {
        BoolValue { value }
    }
}

impl StringValue {
    /// The string `value` as a runtime value.
    pub fn new(value: String) -> (r: Self)
        ensures
            r.value == value,
    {
        Self { value }
    }

    /// The two strings, one after the other.
    pub fn add(self, other: Self) -> (r: Self)
        ensures
            r.value@ == self.value@ + other.value@,
    {
        StringValue::new(self.value.concat(other.value.as_str()))
    }

    /// Whether the two strings hold the same characters.
    pub fn eq(self, other: Self) -> (r: bool)
        ensures
            r == (self.value@ == other.value@),
    {
        self.value == other.value
    }

    /// Whether the two strings differ.
    pub fn ne(self, other: Self) -> (r: bool)
        ensures
            r == (self.value@ != other.value@),
    {
        self.value != other.value
    }
}



impl Object {
    /// The plain value that the record stands for, copied; nothing for a record without the
    /// member `__value__`; a type error where that member stands for no plain value.
    pub fn get_value(&self) -> (r: Result<Option<ValueType>, VmError>)
        ensures
            match object_value(self@) {
                Ok(Some(t)) => r matches Ok(Some(x)) && x@ == t,
                Ok(None) => r matches Ok(None),
                Err(e) => r matches Err(x) && x@ == e,
            },
    {
        let i = find_member(&self.values, "__value__");
        if i < self.values.len() {
            match self.values[i].1.to_val() {
                Ok(t) => Ok(Some(t)),
                Err(e) => Err(e),
            }
        } else {
            Ok(None)
        }
    }

    /// The record with `val` as its member `__value__`.
    pub fn set_value(self, val: Value) -> (r: Self)
        ensures
            r@ == (ObjectModel { name: self@.name, members: put(self@.members, value_key(), val@) }),
    {
        let Object { name, values } = self;
        let mut values = values;
        let ghost before = members_model(values@);
        let key = "__value__".to_string();
        let i = find_member(&values, key.as_str());
        if i < values.len() {
            values.set(i, (key, val));
            assert(members_model(values@) =~= before.update(i as int, (value_key(), val@)));
        } else {
            values.push((key, val));
            assert(members_model(values@) =~= before.push((value_key(), val@)));
        }
        Object { name, values }
    }

    /// The record with `val` written at the dotted path `name`.
    pub fn set_member(self, name: String, val: Value) -> (r: Result<Self, VmError>)
        ensures
            match with_member(self@, name@, val@) {
                Ok(o) => r matches Ok(x) && x@ == o,
                Err(e) => r matches Err(x) && x@ == e,
            },
        decreases self,
    {
        let Object { name: class, values } = self;
        let mut values = values;
        let ghost before = members_model(values@);
        if contains_dot(name.as_str()) {
            let (head, tail) = split_name(name.as_str());
            let i = find_member(&values, head.as_str());
            if i >= values.len() {
                return Err(VmError::Type);
            }
            let (_, inner) = values.remove(i);
            match inner {
                Value::Object(obj) => match obj.set_member(tail, val) {
                    Ok(changed) => {
                        let ghost changed_model = changed@;
                        values.insert(i, (head, Value::Object(changed)));
                        assert(members_model(values@) =~= before.update(
                            i as int,
                            (head_of(name@), ValueModel::Object(changed_model)),
                        ));
                        Ok(Object { name: class, values })
                    },
                    Err(e) => Err(e),
                },
                Value::Value(_) => Err(VmError::Type),
            }
        } else {
            let ghost key = name@;
            let i = find_member(&values, name.as_str());
            if i < values.len() {
                values.set(i, (name, val));
                assert(members_model(values@) =~= before.update(i as int, (key, val@)));
            } else {
                values.push((name, val));
                assert(members_model(values@) =~= before.push((key, val@)));
            }
            Ok(Object { name: class, values })
        }
    }

    /// The plain value that the member at the dotted path `name` stands for, copied.
    pub fn get_member(&self, name: &str) -> (r: Result<ValueType, VmError>)
        ensures
            match member_at(self@, name@) {
                Ok(t) => r matches Ok(x) && x@ == t,
                Err(e) => r matches Err(x) && x@ == e,
            },
        decreases self,
    {
        if contains_dot(name) {
            let (head, tail) = split_name(name);
            let i = find_member(&self.values, head.as_str());
            if i >= self.values.len() {
                return Err(VmError::Type);
            }
            match &self.values[i].1 {
                Value::Object(obj) => obj.get_member(tail.as_str()),
                Value::Value(_) => Err(VmError::Type),
            }
        } else {
            let i = find_member(&self.values, name);
            if i >= self.values.len() {
                return Err(VmError::Type);
            }
            self.values[i].1.to_val()
        }
    }
}

/// The layout of a class: its name, and the names of its members in the order in which a
/// constructor call gives them.
#[derive(Debug, PartialEq)]
pub struct ObjectCreator {
    pub name: String,
    pub members: Vec<String>,
}

/// An [`ObjectCreator`] as a mathematical value.
pub struct CreatorModel {
    pub name: Seq<char>,
    pub members: Seq<Seq<char>>,
}

/// The strings of `names` as sequences of characters.
pub open spec fn names_model(names: Seq<String>) -> Seq<Seq<char>> {
    Seq::new(names.len(), |i: int| names[i]@)
}

impl View for ObjectCreator {
    type V = CreatorModel;

    open spec fn view(&self) -> CreatorModel {
        CreatorModel { name: self.name@, members: names_model(self.members@) }
    }
}

/// The record of the class `name` once the first `n` of `names` are set, in order, to the
/// first `n` of `args`.
pub open spec fn created(name: Seq<char>, names: Seq<Seq<char>>, args: Seq<ValueModel>, n: int) -> Result<
    ObjectModel,
    VmErrorModel,
>
    decreases n,
{
    if n <= 0 || n > names.len() || n > args.len() {
        Ok(ObjectModel { name, members: Seq::empty() })
    } else {
        match created(name, names, args, n - 1) {
            Ok(o) => with_member(o, names[n - 1], args[n - 1]),
            Err(e) => Err(e),
        }
    }
}

/// What calling a class as a constructor gives: a record with each member set to the
/// argument at its place. An error where the number of arguments is not that of the members.
pub open spec fn construct(creator: CreatorModel, args: Seq<ValueModel>) -> Result<ObjectModel, VmErrorModel> {
    if args.len() != creator.members.len() {
        Err(VmErrorModel::BuiltinArg)
    } else {
        created(creator.name, creator.members, args, args.len() as int)
    }
}

impl ObjectCreator {
    /// The layout of a class `name` without members.
    pub fn new(name: String) -> (r: Self)
        ensures
            r@ == (CreatorModel { name: name@, members: Seq::empty() }),
    {
        let r = Self { name, members: Vec::new() };
        assert(r@.members =~= Seq::empty());
        r
    }

    /// Adds the member `name` after the members that the layout has.
    pub fn add_member(&mut self, name: String)
        ensures
            final(self)@ == (CreatorModel {
                name: old(self)@.name,
                members: old(self)@.members.push(name@),
            }),
    {
        self.members.push(name);
        assert(self@.members =~= old(self)@.members.push(name@));
    }

    /// A record of this class with its members set to `members`, in the order of the
    /// declaration.
    pub fn create(&self, members: Vec<Value>) -> (r: Result<Object, VmError>)
        ensures
            match construct(self@, values_model(members@)) {
                Ok(o) => r matches Ok(x) && x@ == o,
                Err(e) => r matches Err(x) && x@ == e,
            },
    {
        if members.len() != self.members.len() {
            return Err(VmError::BuiltinArg);
        }
        let mut s = Object::new(self.name.clone());
        let n = members.len();
        let mut i: usize = 0;
        while i < n
            invariant
                i <= n,
                n == members.len(),
                n == self.members.len(),
                created(self@.name, self@.members, values_model(members@), i as int) == Ok::<
                    ObjectModel,
                    VmErrorModel,
                >(s@),
            decreases n - i,
        {
            match s.set_member(self.members[i].clone(), copy_value(&members[i])) {
                Ok(next) => {
                    s = next;
                },
                Err(e) => {
                    proof {
                        lemma_created_fails(
                            self@.name,
                            self@.members,
                            values_model(members@),
                            i as int + 1,
                            n as int,
                        );
                    }
                    return Err(e);
                },
            }
            i += 1;
        }
        Ok(s)
    }
}

/// Where setting the first `n` members fails, setting more of them fails in the same way.
pub proof fn lemma_created_fails(
    name: Seq<char>,
    names: Seq<Seq<char>>,
    args: Seq<ValueModel>,
    n: int,
    m: int,
)
    requires
        0 < n <= m,
        m <= names.len(),
        m <= args.len(),
        created(name, names, args, n) is Err,
    ensures
        created(name, names, args, m) == created(name, names, args, n),
    decreases m - n,
{
    if n < m {
        lemma_created_fails(name, names, args, n, m - 1);
    }
}

} // verus!
