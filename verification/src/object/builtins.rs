//! The built-in functions.

use crate::error::RuntimeError;
use crate::object::{
    copy_objects, lemma_objects_view, lemma_objects_view_push, objects_view, Builtin, Object, Value,
};
use crate::text::{decimal, push_decimal, push_str, texts};
use vstd::prelude::*;
use vstd::utf8::encode_utf8;

verus! {

/// What a call ends in, as mathematical values: the result's view, or the
/// error's message.
pub open spec fn outcome(r: Result<Object, RuntimeError>) -> Result<Value, Seq<char>> {
    match r {
        Ok(value) => Ok(value@),
        Err(error) => Err(error@),
    }
}

impl Builtin {
    /// The function's place in the table of built-in functions.
    pub open spec fn index(self) -> nat {
        match self {
            Builtin::Len => 0,
            Builtin::Puts => 1,
            Builtin::First => 2,
            Builtin::Last => 3,
            Builtin::Rest => 4,
            Builtin::Push => 5,
        }
    }

    /// The function at a place in the table, if the place is taken.
    pub open spec fn at(index: nat) -> Option<Builtin> {
        if index == 0 {
            Some(Builtin::Len)
        } else if index == 1 {
            Some(Builtin::Puts)
        } else if index == 2 {
            Some(Builtin::First)
        } else if index == 3 {
            Some(Builtin::Last)
        } else if index == 4 {
            Some(Builtin::Rest)
        } else if index == 5 {
            Some(Builtin::Push)
        } else {
            None
        }
    }

    /// The name that programs call the function by.
    pub open spec fn name(self) -> Seq<char> {
        match self {
            Builtin::Len => "len"@,
            Builtin::Puts => "puts"@,
            Builtin::First => "first"@,
            Builtin::Last => "last"@,
            Builtin::Rest => "rest"@,
            Builtin::Push => "push"@,
        }
    }

    /// The function with a given name.
    pub open spec fn named(name: Seq<char>) -> Option<Builtin> {
        if name == "len"@ {
            Some(Builtin::Len)
        } else if name == "first"@ {
            Some(Builtin::First)
        } else if name == "last"@ {
            Some(Builtin::Last)
        } else if name == "rest"@ {
            Some(Builtin::Rest)
        } else if name == "push"@ {
            Some(Builtin::Push)
        } else if name == "puts"@ {
            Some(Builtin::Puts)
        } else {
            None
        }
    }

    /// What a call of the function with `args` returns.
    pub open spec fn apply(self, args: Seq<Value>) -> Result<Value, Seq<char>> {
        match self {
            Builtin::Len => len_spec(args),
            Builtin::Puts => Ok(Value::Null),
            Builtin::First => first_spec(args),
            Builtin::Last => last_spec(args),
            Builtin::Rest => rest_spec(args),
            Builtin::Push => push_spec(args),
        }
    }

    /// The lines that a call of the function with `args` prints: `puts`
    /// prints each argument on a line of its own, the others nothing.
    pub open spec fn prints(self, args: Seq<Value>) -> Seq<Seq<char>> {
        match self {
            Builtin::Puts => Seq::new(args.len(), |i: int| crate::object::inspect(args[i])),
            _ => Seq::empty(),
        }
    }

    /// The table has a place for each function.
    pub proof fn lemma_index_round_trip(self)
        ensures
            Builtin::at(self.index()) == Some(self),
            self.index() < 6,
    {
    }

    pub fn from_index(index: usize) -> (r: Option<Builtin>)
        ensures
            r == Builtin::at(index as nat),
    {
        if index == 0 {
            Some(Builtin::Len)
        } else if index == 1 {
            Some(Builtin::Puts)
        } else if index == 2 {
            Some(Builtin::First)
        } else if index == 3 {
            Some(Builtin::Last)
        } else if index == 4 {
            Some(Builtin::Rest)
        } else if index == 5 {
            Some(Builtin::Push)
        } else {
            None
        }
    }

    pub fn to_index(self) -> (i: usize)
        ensures
            i == self.index(),
    {
        match self {
            Builtin::Len => 0,
            Builtin::Puts => 1,
            Builtin::First => 2,
            Builtin::Last => 3,
            Builtin::Rest => 4,
            Builtin::Push => 5,
        }
    }

    pub fn name_str(self) -> (s: &'static str)
        ensures
            s@ == self.name(),
    {
        match self {
            Builtin::Len => "len",
            Builtin::Puts => "puts",
            Builtin::First => "first",
            Builtin::Last => "last",
            Builtin::Rest => "rest",
            Builtin::Push => "push",
        }
    }

    /// Calls the function. What it prints is appended to `output`, one
    /// string per line.
    pub fn call(self, args: Vec<Object>, output: &mut Vec<String>) -> (r: Result<
        Object,
        RuntimeError,
    >)
        ensures
            outcome(r) == self.apply(objects_view(args@)),
            texts(final(output)@) == texts(old(output)@) + self.prints(objects_view(args@)),
    {
        match self {
            Builtin::Len => {
                assert(texts(output@) + self.prints(objects_view(args@)) =~= texts(output@));
                len(args)
            },
            Builtin::Puts => puts(args, output),
            Builtin::First => {
                assert(texts(output@) + self.prints(objects_view(args@)) =~= texts(output@));
                first(args)
            },
            Builtin::Last => {
                assert(texts(output@) + self.prints(objects_view(args@)) =~= texts(output@));
                last(args)
            },
            Builtin::Rest => {
                assert(texts(output@) + self.prints(objects_view(args@)) =~= texts(output@));
                rest(args)
            },
            Builtin::Push => {
                assert(texts(output@) + self.prints(objects_view(args@)) =~= texts(output@));
                push(args)
            },
        }
    }
}

/// The built-in function with a given name.
pub fn get_builtin(name: &String) -> (r: Option<Builtin>)
    ensures
        r == Builtin::named(name@),
{
    if *name == String::from_str("len") {
        Some(Builtin::Len)
    } else if *name == String::from_str("first") {
        Some(Builtin::First)
    } else if *name == String::from_str("last") {
        Some(Builtin::Last)
    } else if *name == String::from_str("rest") {
        Some(Builtin::Rest)
    } else if *name == String::from_str("push") {
        Some(Builtin::Push)
    } else if *name == String::from_str("puts") {
        Some(Builtin::Puts)
    } else {
        None
    }
}

/// The message for a call with the wrong number of arguments.
pub open spec fn wrong_count_text(got: nat, want: nat) -> Seq<char> {
    "wrong number of arguments. got="@ + decimal(got) + ", want="@ + decimal(want)
}

/// The message for an argument that is no array.
pub open spec fn must_be_array_text(name: Seq<char>, got: Value) -> Seq<char> {
    "argument to `"@ + name + "` must be ARRAY, got "@ + got.kind_name()
}

/// `len(x)`: the number of bytes of a string, or of elements of an array.
pub open spec fn len_spec(args: Seq<Value>) -> Result<Value, Seq<char>> {
    if args.len() != 1 {
        Err(wrong_count_text(args.len(), 1))
    } else {
        match args[0] {
            Value::Str(text) => Ok(Value::Integer(encode_utf8(text).len() as i64)),
            Value::Array(elements) => Ok(Value::Integer(elements.len() as i64)),
            other => Err("argument to `len` not supported, got "@ + other.kind_name()),
        }
    }
}

/// `first(a)`: the first element of an array, null for an empty one.
pub open spec fn first_spec(args: Seq<Value>) -> Result<Value, Seq<char>> {
    if args.len() != 1 {
        Err(wrong_count_text(args.len(), 1))
    } else {
        match args[0] {
            Value::Array(elements) => if elements.len() == 0 {
                Ok(Value::Null)
            } else {
                Ok(elements[0])
            },
            other => Err(must_be_array_text("first"@, other)),
        }
    }
}

/// `last(a)`: the last element of an array, null for an empty one.
pub open spec fn last_spec(args: Seq<Value>) -> Result<Value, Seq<char>> {
    if args.len() != 1 {
        Err(wrong_count_text(args.len(), 1))
    } else {
        match args[0] {
            Value::Array(elements) => if elements.len() == 0 {
                Ok(Value::Null)
            } else {
                Ok(elements[elements.len() - 1])
            },
            other => Err(must_be_array_text("last"@, other)),
        }
    }
}

/// `rest(a)`: the array without its first element, null for an empty one.
pub open spec fn rest_spec(args: Seq<Value>) -> Result<Value, Seq<char>> {
    if args.len() != 1 {
        Err(wrong_count_text(args.len(), 1))
    } else {
        match args[0] {
            Value::Array(elements) => if elements.len() == 0 {
                Ok(Value::Null)
            } else {
                Ok(Value::Array(elements.subrange(1, elements.len() as int)))
            },
            other => Err(must_be_array_text("rest"@, other)),
        }
    }
}

/// `push(a, v)`: a new array, `a` with `v` after its last element.
pub open spec fn push_spec(args: Seq<Value>) -> Result<Value, Seq<char>> {
    if args.len() != 2 {
        Err(wrong_count_text(args.len(), 2))
    } else {
        match args[0] {
            Value::Array(elements) => Ok(Value::Array(elements.push(args[1]))),
            other => Err(must_be_array_text("push"@, other)),
        }
    }
}

fn wrong_count(got: usize, want: usize) -> (e: RuntimeError)
    ensures
        e@ == wrong_count_text(got as nat, want as nat),
{
    let mut message = String::new();
    push_str(&mut message, "wrong number of arguments. got=");
    push_decimal(&mut message, got as u64);
    push_str(&mut message, ", want=");
    push_decimal(&mut message, want as u64);
    assert(message@ =~= wrong_count_text(got as nat, want as nat));
    RuntimeError { message }
}

fn must_be_array(name: &str, got: &Object) -> (e: RuntimeError)
    ensures
        e@ == must_be_array_text(name@, got@),
{
    let mut message = String::new();
    push_str(&mut message, "argument to `");
    push_str(&mut message, name);
    push_str(&mut message, "` must be ARRAY, got ");
    push_str(&mut message, got.kind_str());
    assert(message@ =~= must_be_array_text(name@, got@));
    RuntimeError { message }
}

pub fn len(args: Vec<Object>) -> (r: Result<Object, RuntimeError>)
    ensures
        outcome(r) == len_spec(objects_view(args@)),
{
    proof {
        lemma_objects_view(args@);
    }
    if args.len() != 1 {
        return Err(wrong_count(args.len(), 1));
    }
    match &args[0] {
        Object::String(value) => {
            let bytes = value.as_str().as_bytes();
            Ok(Object::Integer(#[verifier::truncate] (bytes.len() as i64)))
        },
        Object::Array(values) => {
            proof {
                lemma_objects_view(values@);
            }
            Ok(Object::Integer(#[verifier::truncate] (values.len() as i64)))
        },
        other => {
            let mut message = String::new();
            push_str(&mut message, "argument to `len` not supported, got ");
            push_str(&mut message, other.kind_str());
            assert(message@ =~= "argument to `len` not supported, got "@ + other@.kind_name());
            Err(RuntimeError { message })
        },
    }
}

pub fn first(args: Vec<Object>) -> (r: Result<Object, RuntimeError>)
    ensures
        outcome(r) == first_spec(objects_view(args@)),
{
    proof {
        lemma_objects_view(args@);
    }
    if args.len() != 1 {
        return Err(wrong_count(args.len(), 1));
    }
    match &args[0] {
        Object::Array(values) => {
            proof {
                lemma_objects_view(values@);
            }
            if values.len() == 0 {
                Ok(Object::Null)
            } else {
                Ok(values[0].clone())
            }
        },
        other => Err(must_be_array("first", other)),
    }
}

pub fn last(args: Vec<Object>) -> (r: Result<Object, RuntimeError>)
    ensures
        outcome(r) == last_spec(objects_view(args@)),
{
    proof {
        lemma_objects_view(args@);
    }
    if args.len() != 1 {
        return Err(wrong_count(args.len(), 1));
    }
    match &args[0] {
        Object::Array(values) => {
            proof {
                lemma_objects_view(values@);
            }
            if values.len() == 0 {
                Ok(Object::Null)
            } else {
                Ok(values[values.len() - 1].clone())
            }
        },
        other => Err(must_be_array("last", other)),
    }
}

pub fn rest(args: Vec<Object>) -> (r: Result<Object, RuntimeError>)
    ensures
        outcome(r) == rest_spec(objects_view(args@)),
{
    proof {
        lemma_objects_view(args@);
    }
    if args.len() != 1 {
        return Err(wrong_count(args.len(), 1));
    }
    match &args[0] {
        Object::Array(values) => {
            proof {
                lemma_objects_view(values@);
            }
            if values.len() == 0 {
                Ok(Object::Null)
            } else {
                Ok(Object::Array(copy_objects(values, 1, values.len())))
            }
        },
        other => Err(must_be_array("rest", other)),
    }
}

pub fn push(args: Vec<Object>) -> (r: Result<Object, RuntimeError>)
    ensures
        outcome(r) == push_spec(objects_view(args@)),
{
    proof {
        lemma_objects_view(args@);
    }
    if args.len() != 2 {
        return Err(wrong_count(args.len(), 2));
    }
    match &args[0] {
        Object::Array(values) => {
            let mut new_values = copy_objects(values, 0, values.len());
            let ghost copied = new_values@;
            let extra = args[1].clone();
            new_values.push(extra);
            proof {
                lemma_objects_view(values@);
                lemma_objects_view_push(copied, extra);
                assert(objects_view(copied) =~= objects_view(values@));
            }
            Ok(Object::Array(new_values))
        },
        other => Err(must_be_array("push", other)),
    }
}

/// `puts(args…)`: appends the printed form of each argument to `output`
/// as a line of its own, and returns null.
pub fn puts(args: Vec<Object>, output: &mut Vec<String>) -> (r: Result<Object, RuntimeError>)
    ensures
        outcome(r) == Ok::<Value, Seq<char>>(Value::Null),
        texts(final(output)@) == texts(old(output)@) + Builtin::Puts.prints(objects_view(args@)),
{
    let ghost lines = Builtin::Puts.prints(objects_view(args@));
    let mut i: usize = 0;
    while i < args.len()
        invariant
            i <= args.len(),
            lines == Builtin::Puts.prints(objects_view(args@)),
            texts(output@) == texts(old(output)@) + lines.subrange(0, i as int),
        decreases args.len() - i,
    {
        let ghost before = texts(output@);
        output.push(args[i].to_string());
        assert(texts(output@) =~= before.push(lines[i as int]));
        assert(texts(output@) =~= texts(old(output)@) + lines.subrange(0, i + 1));
        i += 1;
    }
    assert(lines.subrange(0, i as int) =~= lines);
    Ok(Object::Null)
}

/// What the array functions do to each other's results:
/// `push` makes an array one longer whose last element is the new one, and
/// `first`, `last` and `rest` take a non-empty array apart.
pub proof fn lemma_array_functions(elements: Seq<Value>, v: Value)
    ensures
        push_spec(seq![Value::Array(elements), v]) == Ok::<Value, Seq<char>>(
            Value::Array(elements.push(v)),
        ),
        elements.len() < i64::MAX ==> len_spec(seq![Value::Array(elements.push(v))]) == Ok::<
            Value,
            Seq<char>,
        >(Value::Integer((elements.len() + 1) as i64)) && len_spec(seq![Value::Array(elements)])
            == Ok::<Value, Seq<char>>(Value::Integer(elements.len() as i64)),
        first_spec(seq![Value::Array(seq![v] + elements)]) == Ok::<Value, Seq<char>>(v),
        last_spec(seq![Value::Array(elements.push(v))]) == Ok::<Value, Seq<char>>(v),
        rest_spec(seq![Value::Array(seq![v] + elements)]) == Ok::<Value, Seq<char>>(
            Value::Array(elements),
        ),
{
    assert((seq![v] + elements).subrange(1, (seq![v] + elements).len() as int) =~= elements);
}

} // verus!
