//! Runtime values: what a program computes with.

pub mod builtins;

use crate::parser::ast::{copy_names, print_names, print_stmt, Statement, StatementView};
use crate::text::{push_signed_decimal, push_str, signed_decimal, texts};
use vstd::prelude::*;

verus! {

/// The built-in functions, in the order of their indices.
#[derive(Debug, PartialEq, Eq, Clone, Copy, Structural)]
pub enum Builtin {
    Len,
    Puts,
    First,
    Last,
    Rest,
    Push,
}

pub type BuiltInFunction = Builtin;

#[derive(Debug, PartialEq)]
pub struct CompiledFunction {
    pub instructions: Vec<u8>,
    pub num_locals: usize,
    pub num_parameters: usize,
}

#[derive(Debug, PartialEq)]
pub struct Closure {
    pub func: CompiledFunction,
    pub free: Vec<Object>,
}

#[derive(Debug, PartialEq)]
pub enum Object {
    Integer(i64),
    Boolean(bool),
    String(String),
    Array(Vec<Object>),
    /// The pairs of a hash in the order in which their keys first came; no
    /// key of a hash built by this library occurs twice.
    Hash(Vec<(HashKey, Object)>),
    ReturnValue(Box<Object>),
    /// A function of the evaluator: parameters, body, and the number of the
    /// environment it was made in.
    Function(Vec<String>, Box<Statement>, usize),
    BuiltInFunction(Builtin),
    CompiledFunction(CompiledFunction),
    Closure(Closure),
    Null,
}

#[derive(Debug, PartialEq, Eq, Hash)]
pub enum HashKey {
    Integer(i64),
    Boolean(bool),
    String(String),
}

/// A hash key as a mathematical value.
pub enum KeyView {
    Integer(i64),
    Boolean(bool),
    Str(Seq<char>),
}

/// A compiled function as a mathematical value.
pub struct FunctionView {
    pub instructions: Seq<u8>,
    pub num_locals: usize,
    pub num_parameters: usize,
}

/// A runtime value as a mathematical value.
pub enum Value {
    Integer(i64),
    Boolean(bool),
    Str(Seq<char>),
    Array(Seq<Value>),
    Hash(Seq<(KeyView, Value)>),
    ReturnValue(Box<Value>),
    Function(Seq<Seq<char>>, StatementView, usize),
    BuiltInFunction(Builtin),
    CompiledFunction(FunctionView),
    Closure(FunctionView, Seq<Value>),
    Null,
}

impl View for HashKey {
    type V = KeyView;

    open spec fn view(&self) -> KeyView {
        match self {
            HashKey::Integer(value) => KeyView::Integer(*value),
            HashKey::Boolean(value) => KeyView::Boolean(*value),
            HashKey::String(value) => KeyView::Str(value@),
        }
    }
}

impl View for CompiledFunction {
    type V = FunctionView;

    open spec fn view(&self) -> FunctionView {
        FunctionView {
            instructions: self.instructions@,
            num_locals: self.num_locals,
            num_parameters: self.num_parameters,
        }
    }
}

/// The views of a list of values.
pub open spec fn objects_view(objects: Seq<Object>) -> Seq<Value>
    decreases objects,
{
    Seq::new(
        objects.len(),
        |i: int|
            if 0 <= i < objects.len() {
                object_view(objects[i])
            } else {
                Value::Null
            },
    )
}

/// The views of the pairs of a hash.
pub open spec fn entries_view(entries: Seq<(HashKey, Object)>) -> Seq<(KeyView, Value)>
    decreases entries,
{
    Seq::new(
        entries.len(),
        |i: int|
            if 0 <= i < entries.len() {
                (entries[i].0@, object_view(entries[i].1))
            } else {
                (KeyView::Boolean(false), Value::Null)
            },
    )
}

/// The view of a value.
pub open spec fn object_view(o: Object) -> Value
    decreases o,
{
    match o {
        Object::Integer(value) => Value::Integer(value),
        Object::Boolean(value) => Value::Boolean(value),
        Object::String(value) => Value::Str(value@),
        Object::Array(elements) => Value::Array(objects_view(elements@)),
        Object::Hash(entries) => Value::Hash(entries_view(entries@)),
        Object::ReturnValue(value) => Value::ReturnValue(Box::new(object_view(*value))),
        Object::Function(params, body, env) => Value::Function(texts(params@), body@, env),
        Object::BuiltInFunction(builtin) => Value::BuiltInFunction(builtin),
        Object::CompiledFunction(func) => Value::CompiledFunction(func@),
        Object::Closure(closure) => Value::Closure(closure.func@, objects_view(closure.free@)),
        Object::Null => Value::Null,
    }
}

/// The view of a list is the list of the views.
pub proof fn lemma_objects_view(objects: Seq<Object>)
    ensures
        objects_view(objects).len() == objects.len(),
        forall|i: int|
            0 <= i < objects.len() ==> #[trigger] objects_view(objects)[i] == object_view(
                objects[i],
            ),
{
}

/// The view of a list with one more value.
pub proof fn lemma_objects_view_push(objects: Seq<Object>, o: Object)
    ensures
        objects_view(objects.push(o)) == objects_view(objects).push(object_view(o)),
{
    assert(objects_view(objects.push(o)) =~= objects_view(objects).push(object_view(o)));
}

/// The view of a list with one value replaced.
pub proof fn lemma_objects_view_update(objects: Seq<Object>, i: int, o: Object)
    requires
        0 <= i < objects.len(),
    ensures
        objects_view(objects.update(i, o)) == objects_view(objects).update(i, object_view(o)),
{
    assert(objects_view(objects.update(i, o)) =~= objects_view(objects).update(
        i,
        object_view(o),
    ));
}

impl View for Object {
    type V = Value;

    open spec fn view(&self) -> Value {
        object_view(*self)
    }
}

impl Clone for HashKey {
    fn clone(&self) -> (r: HashKey)
        ensures
            r@ == self@,
    {
        match self {
            HashKey::Integer(value) => HashKey::Integer(*value),
            HashKey::Boolean(value) => HashKey::Boolean(*value),
            HashKey::String(value) => HashKey::String(value.clone()),
        }
    }
}

/// A copy of a sequence of bytes.
pub fn copy_bytes(bytes: &Vec<u8>) -> (r: Vec<u8>)
    ensures
        r@ == bytes@,
{
    let mut out: Vec<u8> = Vec::new();
    let mut i: usize = 0;
    while i < bytes.len()
        invariant
            i <= bytes.len(),
            out@ == bytes@.subrange(0, i as int),
        decreases bytes.len() - i,
    {
        out.push(bytes[i]);
        i += 1;
        assert(out@ =~= bytes@.subrange(0, i as int));
    }
    assert(out@ =~= bytes@);
    out
}

impl Clone for CompiledFunction {
    fn clone(&self) -> (r: CompiledFunction)
        ensures
            r@ == self@,
    {
        CompiledFunction {
            instructions: copy_bytes(&self.instructions),
            num_locals: self.num_locals,
            num_parameters: self.num_parameters,
        }
    }
}

/// A copy of the values `objects[from..to]`.
pub fn copy_objects(objects: &Vec<Object>, from: usize, to: usize) -> (r: Vec<Object>)
    requires
        from <= to <= objects.len(),
    ensures
        objects_view(r@) == objects_view(objects@).subrange(from as int, to as int),
    decreases objects, 0nat,
{
    let mut out: Vec<Object> = Vec::new();
    let mut i: usize = from;
    while i < to
        invariant
            from <= i <= to <= objects.len(),
            out.len() == i - from,
            forall|j: int| 0 <= j < i - from ==> object_view(out[j]) == object_view(objects[from + j]),
        decreases to - i,
    {
        out.push(copy_object(&objects[i]));
        i += 1;
    }
    assert(objects_view(out@) =~= objects_view(objects@).subrange(from as int, to as int));
    out
}

pub fn copy_entries(entries: &Vec<(HashKey, Object)>) -> (r: Vec<(HashKey, Object)>)
    ensures
        entries_view(r@) == entries_view(entries@),
    decreases entries, 0nat,
{
    let mut out: Vec<(HashKey, Object)> = Vec::new();
    let mut i: usize = 0;
    while i < entries.len()
        invariant
            i <= entries.len(),
            out.len() == i,
            forall|j: int|
                0 <= j < i ==> out[j].0@ == entries[j].0@ && object_view(out[j].1) == object_view(
                    entries[j].1,
                ),
        decreases entries.len() - i,
    {
        let key = entries[i].0.clone();
        let value = copy_object(&entries[i].1);
        out.push((key, value));
        i += 1;
    }
    assert(entries_view(out@) =~= entries_view(entries@));
    out
}

fn copy_object(o: &Object) -> (r: Object)
    ensures
        r@ == o@,
    decreases o, 1nat,
{
    match o {
        Object::Integer(value) => Object::Integer(*value),
        Object::Boolean(value) => Object::Boolean(*value),
        Object::String(value) => Object::String(value.clone()),
        Object::Array(elements) => {
            let copied = copy_objects(elements, 0, elements.len());
            assert(objects_view(elements@).subrange(0, elements.len() as int) =~= objects_view(
                elements@,
            ));
            Object::Array(copied)
        },
        Object::Hash(entries) => Object::Hash(copy_entries(entries)),
        Object::ReturnValue(value) => Object::ReturnValue(Box::new(copy_object(value))),
        Object::Function(params, body, env) => Object::Function(
            copy_names(params),
            Box::new((**body).clone()),
            *env,
        ),
        Object::BuiltInFunction(builtin) => Object::BuiltInFunction(*builtin),
        Object::CompiledFunction(func) => Object::CompiledFunction(func.clone()),
        Object::Closure(closure) => {
            let free = copy_objects(&closure.free, 0, closure.free.len());
            assert(objects_view(closure.free@).subrange(0, closure.free.len() as int)
                =~= objects_view(closure.free@));
            Object::Closure(Closure { func: closure.func.clone(), free })
        },
        Object::Null => Object::Null,
    }
}

impl Clone for Object {
    fn clone(&self) -> (r: Object)
        ensures
            r@ == self@,
    {
        copy_object(self)
    }
}

impl Closure {
    /// The closure as a value.
    pub open spec fn value(&self) -> Value {
        Value::Closure(self.func@, objects_view(self.free@))
    }
}

impl Clone for Closure {
    fn clone(&self) -> (r: Closure)
        ensures
            r.func@ == self.func@,
            objects_view(r.free@) == objects_view(self.free@),
    {
        let free = copy_objects(&self.free, 0, self.free.len());
        assert(objects_view(self.free@).subrange(0, self.free.len() as int) =~= objects_view(
            self.free@,
        ));
        Closure { func: self.func.clone(), free }
    }
}

impl KeyView {
    /// The value that the key was taken from.
    pub open spec fn value(self) -> Value {
        match self {
            KeyView::Integer(value) => Value::Integer(value),
            KeyView::Boolean(value) => Value::Boolean(value),
            KeyView::Str(value) => Value::Str(value),
        }
    }
}

impl Value {
    /// Everything is true but `false` and null.
    pub open spec fn is_truthy(self) -> bool {
        match self {
            Value::Boolean(value) => value,
            Value::Null => false,
            _ => true,
        }
    }

    /// The name of the value's type, as error messages give it.
    pub open spec fn kind_name(self) -> Seq<char> {
        match self {
            Value::Integer(_) => "INTEGER"@,
            Value::Boolean(_) => "BOOLEAN"@,
            Value::Str(_) => "STRING"@,
            Value::Array(_) => "ARRAY"@,
            Value::Hash(_) => "HASH"@,
            Value::ReturnValue(_) => "RETURN_VALUE"@,
            Value::Function(_, _, _) => "FUNCTION"@,
            Value::BuiltInFunction(_) => "BUILTIN"@,
            Value::CompiledFunction(_) => "COMPILED_FUNCTION"@,
            Value::Closure(_, _) => "CLOSURE"@,
            Value::Null => "NULL"@,
        }
    }

    /// The value as a hash key: integers, booleans and strings have one.
    pub open spec fn key(self) -> Option<KeyView> {
        match self {
            Value::Integer(value) => Some(KeyView::Integer(value)),
            Value::Boolean(value) => Some(KeyView::Boolean(value)),
            Value::Str(value) => Some(KeyView::Str(value)),
            _ => None,
        }
    }
}

/// The index of the first pair from `i` on whose key is `key`, or the
/// number of pairs if there is none.
pub open spec fn position(entries: Seq<(KeyView, Value)>, key: KeyView, i: int) -> int
    decreases entries.len() - i,
{
    if 0 <= i < entries.len() {
        if entries[i].0 == key {
            i
        } else {
            position(entries, key, i + 1)
        }
    } else {
        entries.len() as int
    }
}

/// The value that a hash holds under `key`.
pub open spec fn lookup(entries: Seq<(KeyView, Value)>, key: KeyView) -> Option<Value> {
    let p = position(entries, key, 0);
    if p < entries.len() {
        Some(entries[p].1)
    } else {
        None
    }
}

/// The pairs after `value` was stored under `key`: the value of an existing
/// key is replaced in place, a new key comes last.
pub open spec fn insert(entries: Seq<(KeyView, Value)>, key: KeyView, value: Value) -> Seq<
    (KeyView, Value),
> {
    let p = position(entries, key, 0);
    if p < entries.len() {
        entries.update(p, (key, value))
    } else {
        entries.push((key, value))
    }
}

/// `position` finds the first pair with the key, and only that.
pub proof fn lemma_position(entries: Seq<(KeyView, Value)>, key: KeyView, i: int)
    requires
        0 <= i <= entries.len(),
    ensures
        i <= position(entries, key, i) <= entries.len(),
        position(entries, key, i) < entries.len() ==> entries[position(entries, key, i)].0 == key,
        forall|j: int| i <= j < position(entries, key, i) ==> (#[trigger] entries[j]).0 != key,
    decreases entries.len() - i,
{
    if i < entries.len() && entries[i].0 != key {
        lemma_position(entries, key, i + 1);
    }
}

/// A position that holds the key and has no earlier pair with it is the one
/// that `position` finds.
pub proof fn lemma_position_unique(entries: Seq<(KeyView, Value)>, key: KeyView, i: int, p: int)
    requires
        0 <= i <= p <= entries.len(),
        p < entries.len() ==> entries[p].0 == key,
        forall|j: int| i <= j < p ==> (#[trigger] entries[j]).0 != key,
    ensures
        position(entries, key, i) == p,
    decreases entries.len() - i,
{
    if i < p {
        lemma_position_unique(entries, key, i + 1, p);
    }
}

/// A hash answers with the value last stored under a key.
pub proof fn lemma_lookup_inserted(entries: Seq<(KeyView, Value)>, key: KeyView, value: Value)
    ensures
        lookup(insert(entries, key, value), key) == Some(value),
{
    lemma_position(entries, key, 0);
    let p = position(entries, key, 0);
    let after = insert(entries, key, value);
    assert forall|j: int| 0 <= j < p implies (#[trigger] after[j]).0 != key by {
        assert(entries[j].0 != key);
    }
    lemma_position_unique(after, key, 0, p);
}

/// Storing under one key leaves what the hash holds under every other key.
pub proof fn lemma_lookup_other(
    entries: Seq<(KeyView, Value)>,
    key: KeyView,
    value: Value,
    other: KeyView,
)
    requires
        other != key,
    ensures
        lookup(insert(entries, key, value), other) == lookup(entries, other),
{
    lemma_position(entries, key, 0);
    lemma_position(entries, other, 0);
    let p = position(entries, key, 0);
    let q = position(entries, other, 0);
    let after = insert(entries, key, value);
    assert forall|j: int| 0 <= j < q && j < after.len() implies (#[trigger] after[j]).0
        != other by {
        if j == p {
        } else {
            assert(entries[j].0 != other);
        }
    }
    if q < entries.len() {
        assert(q != p);
        lemma_position_unique(after, other, 0, q);
    } else {
        assert(after.len() == entries.len() || after[entries.len() as int].0 == key);
        lemma_position_unique(after, other, 0, after.len() as int);
    }
}

/// Storing under a key never makes a key occur twice.
pub open spec fn distinct_keys(entries: Seq<(KeyView, Value)>) -> bool {
    forall|i: int, j: int|
        0 <= i < j < entries.len() ==> (#[trigger] entries[i]).0 != (#[trigger] entries[j]).0
}

/// `insert` keeps the keys of a hash distinct.
pub proof fn lemma_insert_distinct(entries: Seq<(KeyView, Value)>, key: KeyView, value: Value)
    requires
        distinct_keys(entries),
    ensures
        distinct_keys(insert(entries, key, value)),
{
    lemma_position(entries, key, 0);
    let p = position(entries, key, 0);
    let after = insert(entries, key, value);
    assert forall|i: int, j: int| 0 <= i < j < after.len() implies (#[trigger] after[i]).0 != (
    #[trigger] after[j]).0 by {
        if p < entries.len() {
            assert(entries[i].0 != entries[j].0);
        } else {
            if j < entries.len() {
                assert(entries[i].0 != entries[j].0);
            } else {
                assert(entries[i].0 != key);
            }
        }
    }
}

impl HashKey {
    /// Whether two keys are the same.
    pub fn same(&self, other: &HashKey) -> (b: bool)
        ensures
            b == (self@ == other@),
    {
        match self {
            HashKey::Integer(a) => match other {
                HashKey::Integer(b) => *a == *b,
                _ => false,
            },
            HashKey::Boolean(a) => match other {
                HashKey::Boolean(b) => *a == *b,
                _ => false,
            },
            HashKey::String(a) => match other {
                HashKey::String(b) => *a == *b,
                _ => false,
            },
        }
    }

    /// The key of a value, if the value can be one.
    pub fn from_object(object: &Object) -> (r: Option<HashKey>)
        ensures
            match r {
                Some(key) => object@.key() == Some(key@),
                None => object@.key() is None,
            },
    {
        match object {
            Object::Integer(value) => Some(HashKey::Integer(*value)),
            Object::Boolean(value) => Some(HashKey::Boolean(*value)),
            Object::String(value) => Some(HashKey::String(value.clone())),
            _ => None,
        }
    }

    /// The value that the key stands for.
    pub fn into_object(self) -> (r: Object)
        ensures
            r@ == self@.value(),
    {
        match self {
            HashKey::Integer(value) => Object::Integer(value),
            HashKey::Boolean(value) => Object::Boolean(value),
            HashKey::String(value) => Object::String(value),
        }
    }

    /// Appends the key's printed form to `out`.
    pub fn write(&self, out: &mut String)
        ensures
            final(out)@ == old(out)@ + inspect_key(self@),
    {
        match self {
            HashKey::Integer(value) => push_signed_decimal(out, *value),
            HashKey::Boolean(value) => {
                if *value {
                    push_str(out, "true");
                } else {
                    push_str(out, "false");
                }
            },
            HashKey::String(value) => push_str(out, value.as_str()),
        }
    }

    /// The key's printed form.
    pub fn to_string(&self) -> (s: String)
        ensures
            s@ == inspect_key(self@),
    {
        let mut out = String::new();
        self.write(&mut out);
        assert(out@ =~= inspect_key(self@));
        out
    }
}

/// The value stored under `key`, if there is one.
pub fn hash_get(entries: &Vec<(HashKey, Object)>, key: &HashKey) -> (r: Option<Object>)
    ensures
        match r {
            Some(value) => lookup(entries_view(entries@), key@) == Some(value@),
            None => lookup(entries_view(entries@), key@) is None,
        },
{
    let ghost views = entries_view(entries@);
    let mut i: usize = 0;
    while i < entries.len()
        invariant
            i <= entries.len(),
            views == entries_view(entries@),
            position(views, key@, 0) == position(views, key@, i as int),
        decreases entries.len() - i,
    {
        if entries[i].0.same(key) {
            return Some(entries[i].1.clone());
        }
        i += 1;
    }
    None
}

/// Stores `value` under `key`.
pub fn hash_insert(entries: &mut Vec<(HashKey, Object)>, key: HashKey, value: Object)
    ensures
        entries_view(final(entries)@) == insert(entries_view(old(entries)@), key@, value@),
{
    let ghost views = entries_view(entries@);
    let mut i: usize = 0;
    while i < entries.len()
        invariant
            i <= entries.len(),
            entries@ == old(entries)@,
            views == entries_view(entries@),
            position(views, key@, 0) == position(views, key@, i as int),
        decreases entries.len() - i,
    {
        if entries[i].0.same(&key) {
            entries[i] = (key, value);
            assert(entries_view(entries@) =~= insert(views, key@, value@));
            return ;
        }
        i += 1;
    }
    entries.push((key, value));
    assert(entries_view(entries@) =~= insert(views, key@, value@));
}

/// The printed form of a key: that of the value it stands for.
pub open spec fn inspect_key(key: KeyView) -> Seq<char> {
    match key {
        KeyView::Integer(value) => signed_decimal(value as int),
        KeyView::Boolean(value) => if value {
            "true"@
        } else {
            "false"@
        },
        KeyView::Str(value) => value,
    }
}

/// The values from index `i` on, printed and separated by a comma and a
/// space.
pub open spec fn inspect_values(values: Seq<Value>, i: int) -> Seq<char>
    decreases values, (values.len() - i) as nat,
{
    if 0 <= i < values.len() {
        (if i > 0 {
            ", "@
        } else {
            Seq::empty()
        }) + inspect(values[i]) + inspect_values(values, i + 1)
    } else {
        Seq::empty()
    }
}

/// The pairs from index `i` on, each printed as `key: value`, separated by
/// a comma and a space.
pub open spec fn inspect_entries(entries: Seq<(KeyView, Value)>, i: int) -> Seq<char>
    decreases entries, (entries.len() - i) as nat,
{
    if 0 <= i < entries.len() {
        (if i > 0 {
            ", "@
        } else {
            Seq::empty()
        }) + inspect_key(entries[i].0) + ": "@ + inspect(entries[i].1) + inspect_entries(
            entries,
            i + 1,
        )
    } else {
        Seq::empty()
    }
}

/// The printed form of a value.
pub open spec fn inspect(v: Value) -> Seq<char>
    decreases v, 0nat,
{
    match v {
        Value::Integer(value) => signed_decimal(value as int),
        Value::Boolean(value) => if value {
            "true"@
        } else {
            "false"@
        },
        Value::Str(value) => value,
        Value::Array(elements) => "["@ + inspect_values(elements, 0) + "]"@,
        Value::Hash(entries) => "{"@ + inspect_entries(entries, 0) + "}"@,
        Value::ReturnValue(value) => inspect(*value),
        Value::Function(params, body, _) => "fn("@ + print_names(params, 0) + ") {\n"@
            + print_stmt(body) + "\n}"@,
        Value::BuiltInFunction(_) => "builtin function"@,
        Value::CompiledFunction(_) => "CompiledFunction"@,
        Value::Closure(_, _) => "Closure"@,
        Value::Null => "null"@,
    }
}

fn write_values(values: &Vec<Object>, out: &mut String)
    ensures
        final(out)@ == old(out)@ + inspect_values(objects_view(values@), 0),
    decreases values, 0nat,
{
    let ghost start = out@;
    let ghost views = objects_view(values@);
    let mut i: usize = 0;
    while i < values.len()
        invariant
            i <= values.len(),
            views == objects_view(values@),
            out@ + inspect_values(views, i as int) == start + inspect_values(views, 0),
        decreases values.len() - i,
    {
        let ghost before = out@;
        if i > 0 {
            push_str(out, ", ");
        }
        values[i].write(out);
        assert(before + inspect_values(views, i as int) =~= out@ + inspect_values(views, i + 1));
        i += 1;
    }
    assert(out@ + inspect_values(views, i as int) =~= out@);
}

fn write_entries(entries: &Vec<(HashKey, Object)>, out: &mut String)
    ensures
        final(out)@ == old(out)@ + inspect_entries(entries_view(entries@), 0),
    decreases entries, 0nat,
{
    let ghost start = out@;
    let ghost views = entries_view(entries@);
    let mut i: usize = 0;
    while i < entries.len()
        invariant
            i <= entries.len(),
            views == entries_view(entries@),
            out@ + inspect_entries(views, i as int) == start + inspect_entries(views, 0),
        decreases entries.len() - i,
    {
        let ghost before = out@;
        if i > 0 {
            push_str(out, ", ");
        }
        entries[i].0.write(out);
        push_str(out, ": ");
        entries[i].1.write(out);
        assert(before + inspect_entries(views, i as int) =~= out@ + inspect_entries(
            views,
            i + 1,
        ));
        i += 1;
    }
    assert(out@ + inspect_entries(views, i as int) =~= out@);
}

impl Object {
    /// Whether the value counts as true.
    pub fn is_truthy(&self) -> (b: bool)
        ensures
            b == self@.is_truthy(),
    {
        match self {
            Object::Boolean(value) => *value,
            Object::Null => false,
            _ => true,
        }
    }

    /// The name of the value's type.
    pub fn kind_str(&self) -> (s: &'static str)
        ensures
            s@ == self@.kind_name(),
    {
        match self {
            Object::Integer(_) => "INTEGER",
            Object::Boolean(_) => "BOOLEAN",
            Object::String(_) => "STRING",
            Object::Array(_) => "ARRAY",
            Object::Hash(_) => "HASH",
            Object::ReturnValue(_) => "RETURN_VALUE",
            Object::Function(_, _, _) => "FUNCTION",
            Object::BuiltInFunction(_) => "BUILTIN",
            Object::CompiledFunction(_) => "COMPILED_FUNCTION",
            Object::Closure(_) => "CLOSURE",
            Object::Null => "NULL",
        }
    }

    /// The name of the value's type, as a string.
    pub fn kind_name(&self) -> (s: String)
        ensures
            s@ == self@.kind_name(),
    {
        String::from_str(self.kind_str())
    }

    /// Appends the value's printed form to `out`.
    pub fn write(&self, out: &mut String)
        ensures
            final(out)@ == old(out)@ + inspect(self@),
        decreases self, 1nat,
    {
        match self {
            Object::Integer(value) => push_signed_decimal(out, *value),
            Object::Boolean(value) => {
                if *value {
                    push_str(out, "true");
                } else {
                    push_str(out, "false");
                }
            },
            Object::String(value) => push_str(out, value.as_str()),
            Object::Array(elements) => {
                push_str(out, "[");
                write_values(elements, out);
                push_str(out, "]");
                assert(out@ =~= old(out)@ + inspect(self@));
            },
            Object::Hash(entries) => {
                push_str(out, "{");
                write_entries(entries, out);
                push_str(out, "}");
                assert(out@ =~= old(out)@ + inspect(self@));
            },
            Object::ReturnValue(value) => value.write(out),
            Object::Function(params, body, _) => {
                push_str(out, "fn(");
                crate::parser::ast::write_names(params, out);
                push_str(out, ") {\n");
                body.write(out);
                push_str(out, "\n}");
                assert(out@ =~= old(out)@ + inspect(self@));
            },
            Object::BuiltInFunction(_) => push_str(out, "builtin function"),
            Object::CompiledFunction(_) => push_str(out, "CompiledFunction"),
            Object::Closure(_) => push_str(out, "Closure"),
            Object::Null => push_str(out, "null"),
        }
    }

    /// The value's printed form.
    pub fn to_string(&self) -> (s: String)
        ensures
            s@ == inspect(self@),
    {
        let mut out = String::new();
        self.write(&mut out);
        assert(out@ =~= inspect(self@));
        out
    }
}

} // verus!
