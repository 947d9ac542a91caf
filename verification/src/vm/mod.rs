//! The virtual machine: a stack machine that runs bytecode with call
//! frames, closures and built-in functions.
//!
//! What each instruction does is laid down in [`machine`]; the functions
//! here carry it out on the machine's vectors.

pub mod frame;
pub mod machine;

use crate::code::{invalid_opcode_text, Opcode};
use crate::compiler::Bytecode;
use crate::error::RuntimeError;
use crate::object::builtins::outcome;
use crate::object::{
    copy_objects, hash_get, hash_insert, entries_view, lemma_objects_view,
    lemma_objects_view_update, object_view, objects_view, Builtin, Closure, CompiledFunction,
    HashKey, Object, Value,
};
use crate::text::{byte_len, byte_slice, divide, push_decimal, push_str, texts};
use crate::vm::frame::{frames_view, Frame, FrameView};
use crate::vm::machine::{
    array_index, binary, build_hash, clamp_bound, comparison, hash_index, index_value,
    integer_binary, integer_comparison, slice_bounds, slice_value, string_binary, string_index,
    unsupported_index_text, unsupported_slice_text, wrong_arguments_text, Machine, GLOBALS_SIZE,
    MAX_FRAMES, STACK_SIZE,
};
use vstd::prelude::*;

verus! {

#[derive(Debug, PartialEq)]
pub struct VM {
    pub constants: Vec<Object>,
    pub stack: Vec<Object>,
    pub sp: usize,
    pub globals: Vec<Object>,
    pub frames: Vec<Frame>,
    /// The lines that `puts` has printed and nobody has taken yet.
    pub output: Vec<String>,
}

impl View for VM {
    type V = Machine;

    open spec fn view(&self) -> Machine {
        Machine {
            constants: objects_view(self.constants@),
            stack: objects_view(self.stack@),
            sp: self.sp as int,
            globals: objects_view(self.globals@),
            frames: frames_view(self.frames@),
            output: texts(self.output@),
        }
    }
}

/// Whether a call ended as the model says: with the state it gives, or
/// with the error it gives.
pub open spec fn agrees(
    r: Result<(), RuntimeError>,
    after: Machine,
    expected: Result<Machine, Seq<char>>,
) -> bool {
    match expected {
        Ok(m) => r is Ok && after == m,
        Err(e) => r is Err && r->Err_0@ == e,
    }
}

/// The state in which a program starts: an empty stack of null slots and
/// one frame, at the first instruction, for the main program as a closure
/// without parameters, locals or captured values.
pub open spec fn start(instructions: Seq<u8>, constants: Seq<Value>, globals: Seq<Value>) -> Machine {
    Machine {
        constants,
        stack: Seq::new(STACK_SIZE as nat, |i: int| Value::Null),
        sp: 0,
        globals,
        frames: seq![
            FrameView {
                func: crate::object::FunctionView { instructions, num_locals: 0, num_parameters: 0 },
                free: Seq::empty(),
                ip: 0,
                base_pointer: 0,
            },
        ],
        output: Seq::empty(),
    }
}

/// `n` null values.
fn nulls(n: usize) -> (r: Vec<Object>)
    ensures
        objects_view(r@) == Seq::new(n as nat, |i: int| Value::Null),
{
    let mut out: Vec<Object> = Vec::new();
    let mut i: usize = 0;
    while i < n
        invariant
            i <= n,
            out.len() == i,
            forall|j: int| 0 <= j < i ==> out[j]@ == Value::Null,
        decreases n - i,
    {
        out.push(Object::Null);
        i += 1;
    }
    assert(objects_view(out@) =~= Seq::new(n as nat, |i: int| Value::Null));
    out
}

/// The frame for the main program.
fn main_frame(instructions: Vec<u8>) -> (frame: Frame)
    ensures
        frame@ == start(instructions@, Seq::empty(), Seq::empty()).frames[0],
{
    let main_fn = CompiledFunction { instructions, num_locals: 0, num_parameters: 0 };
    let main_closure = Closure { func: main_fn, free: Vec::new() };
    let frame = Frame::new(main_closure, 0);
    assert(frame@.free =~= Seq::empty());
    frame
}

fn error(message: &str) -> (r: Result<(), RuntimeError>)
    ensures
        r is Err,
        r->Err_0@ == message@,
{
    Err(RuntimeError::new(message))
}

impl Clone for VM {
    fn clone(&self) -> (r: VM)
        ensures
            r@ == self@,
    {
        let constants = copy_objects(&self.constants, 0, self.constants.len());
        let stack = copy_objects(&self.stack, 0, self.stack.len());
        let globals = copy_objects(&self.globals, 0, self.globals.len());
        assert(objects_view(self.constants@).subrange(0, self.constants.len() as int)
            =~= objects_view(self.constants@));
        assert(objects_view(self.stack@).subrange(0, self.stack.len() as int) =~= objects_view(
            self.stack@,
        ));
        assert(objects_view(self.globals@).subrange(0, self.globals.len() as int)
            =~= objects_view(self.globals@));
        let mut frames: Vec<Frame> = Vec::new();
        let mut i: usize = 0;
        while i < self.frames.len()
            invariant
                i <= self.frames.len(),
                frames.len() == i,
                forall|j: int| 0 <= j < i ==> frames[j]@ == self.frames[j]@,
            decreases self.frames.len() - i,
        {
            frames.push(self.frames[i].clone());
            i += 1;
        }
        let r = VM {
            constants,
            stack,
            sp: self.sp,
            globals,
            frames,
            output: crate::parser::ast::copy_names(&self.output),
        };
        assert(r@.frames =~= self@.frames);
        r
    }
}

impl Default for VM {
    /// A machine with no program: no constants and no frame.
    fn default() -> (vm: VM)
        ensures
            vm.wf(),
            vm@.frames.len() == 0,
            vm@.constants.len() == 0,
            vm@.sp == 0,
            vm@.output.len() == 0,
            vm@.stack == Seq::new(STACK_SIZE as nat, |i: int| Value::Null),
            vm@.globals == Seq::new(GLOBALS_SIZE as nat, |i: int| Value::Null),
    {
        let vm = VM {
            constants: Vec::new(),
            stack: nulls(STACK_SIZE),
            sp: 0,
            globals: nulls(GLOBALS_SIZE),
            frames: Vec::new(),
            output: Vec::new(),
        };
        assert(vm@.frames =~= Seq::empty());
        vm
    }
}

impl VM {
    /// The machine's vectors have the sizes that the model asks for.
    pub open spec fn wf(&self) -> bool {
        self@.wf()
    }

    /// A machine that is about to run `bytecode`, with all globals null.
    pub fn new(bytecode: Bytecode) -> (vm: VM)
        ensures
            vm.wf(),
            vm@ == start(
                bytecode.instructions@,
                objects_view(bytecode.constants@),
                Seq::new(GLOBALS_SIZE as nat, |i: int| Value::Null),
            ),
    {
        let frame = main_frame(bytecode.instructions);
        let mut frames: Vec<Frame> = Vec::new();
        frames.push(frame);
        let vm = VM {
            constants: bytecode.constants,
            stack: nulls(STACK_SIZE),
            sp: 0,
            globals: nulls(GLOBALS_SIZE),
            frames,
            output: Vec::new(),
        };
        assert(vm@.frames =~= start(
            bytecode.instructions@,
            objects_view(bytecode.constants@),
            Seq::new(GLOBALS_SIZE as nat, |i: int| Value::Null),
        ).frames);
        assert(vm@.output =~= Seq::empty());
        vm
    }

    /// Makes the machine ready to run `bytecode`. The globals stay as they
    /// are, and so do the lines printed and not yet taken.
    pub fn reset(&mut self, bytecode: Bytecode)
        requires
            old(self).wf(),
        ensures
            final(self).wf(),
            final(self)@ == (Machine {
                output: old(self)@.output,
                ..start(bytecode.instructions@, objects_view(bytecode.constants@), old(self)@.globals)
            }),
    {
        let frame = main_frame(bytecode.instructions);
        let mut frames: Vec<Frame> = Vec::new();
        frames.push(frame);
        self.frames = frames;
        self.constants = bytecode.constants;
        self.stack = nulls(STACK_SIZE);
        self.sp = 0;
        assert(self@.frames =~= start(
            bytecode.instructions@,
            objects_view(bytecode.constants@),
            old(self)@.globals,
        ).frames);
    }

    /// Hands over the lines printed since they were last taken.
    pub fn take_output(&mut self) -> (lines: Vec<String>)
        ensures
            texts(lines@) == old(self)@.output,
            final(self)@ == (Machine { output: Seq::empty(), ..old(self)@ }),
    {
        let mut lines: Vec<String> = Vec::new();
        std::mem::swap(&mut lines, &mut self.output);
        assert(self@.output =~= Seq::empty());
        lines
    }

    /// Puts a value on top of the stack. A full stack is an error and
    /// stays untouched.
    pub fn push(&mut self, obj: Object) -> (r: Result<(), RuntimeError>)
        requires
            old(self).wf(),
        ensures
            final(self).wf(),
            agrees(r, final(self)@, old(self)@.push(obj@)),
            r is Err ==> final(self)@ == old(self)@,
    {
        if self.sp >= STACK_SIZE {
            return error("stack overflow");
        }
        proof {
            lemma_objects_view_update(self.stack@, self.sp as int, obj);
        }
        self.stack[self.sp] = obj;
        self.sp += 1;
        Ok(())
    }

    /// Takes the top value off the stack. The slot keeps the value.
    pub fn pop(&mut self) -> (r: Result<Object, RuntimeError>)
        requires
            old(self).wf(),
        ensures
            final(self).wf(),
            match r {
                Ok(value) => old(self).sp >= 1 && value@ == old(self)@.peek(0) && final(self)@
                    == old(self)@.drop(1),
                Err(e) => old(self).sp == 0 && e@ == "stack underflow"@ && final(self)@ == old(
                    self,
                )@,
            },
    {
        if self.sp == 0 {
            return Err(RuntimeError::new("stack underflow"));
        }
        self.sp -= 1;
        proof {
            lemma_objects_view(self.stack@);
        }
        Ok(self.stack[self.sp].clone())
    }

    /// The value that was last taken off the stack: what the slot above
    /// the top holds. Null where the stack is full.
    pub fn last_popped_stack_elem(&self) -> (value: Object)
        ensures
            value@ == if self.sp < self.stack.len() {
                self@.stack[self.sp as int]
            } else {
                Value::Null
            },
    {
        if self.sp < self.stack.len() {
            proof {
                lemma_objects_view(self.stack@);
            }
            self.stack[self.sp].clone()
        } else {
            Object::Null
        }
    }

    /// The value on top of the stack; null where the stack is empty.
    pub fn stack_top(&self) -> (value: Object)
        ensures
            value@ == if 0 < self.sp <= self.stack.len() {
                self@.peek(0)
            } else {
                Value::Null
            },
    {
        if self.sp == 0 || self.sp > self.stack.len() {
            return Object::Null;
        }
        proof {
            lemma_objects_view(self.stack@);
        }
        self.stack[self.sp - 1].clone()
    }

    /// The frame that runs.
    pub fn current_frame(&self) -> (frame: &Frame)
        requires
            self.frames.len() > 0,
        ensures
            frame@ == self@.frame(),
    {
        &self.frames[self.frames.len() - 1]
    }

    /// Opens a frame. One frame too many is an error, and so is a frame
    /// whose locals would start beyond the stack.
    pub fn push_frame(&mut self, frame: Frame) -> (r: Result<(), RuntimeError>)
        requires
            old(self).wf(),
        ensures
            final(self).wf(),
            match r {
                Ok(()) => old(self).frames.len() < MAX_FRAMES && frame.base_pointer <= STACK_SIZE
                    && final(self)@ == (Machine {
                    frames: old(self)@.frames.push(frame@),
                    ..old(self)@
                }),
                Err(e) => final(self)@ == old(self)@ && if old(self).frames.len() >= MAX_FRAMES {
                    e@ == "frame overflow"@
                } else {
                    frame.base_pointer > STACK_SIZE && e@ == "stack overflow"@
                },
            },
    {
        if self.frames.len() >= MAX_FRAMES {
            return Err(RuntimeError::new("frame overflow"));
        }
        if frame.base_pointer > STACK_SIZE {
            return Err(RuntimeError::new("stack overflow"));
        }
        self.frames.push(frame);
        assert(self@.frames =~= old(self)@.frames.push(frame@));
        Ok(())
    }

    /// Closes the running frame and hands it over.
    pub fn pop_frame(&mut self) -> (r: Result<Frame, RuntimeError>)
        requires
            old(self).wf(),
        ensures
            final(self).wf(),
            match r {
                Ok(frame) => old(self).frames.len() > 0 && frame@ == old(self)@.frame()
                    && final(self)@ == (Machine {
                    frames: old(self)@.frames.drop_last(),
                    ..old(self)@
                }),
                Err(e) => old(self).frames.len() == 0 && e@ == "frame underflow"@ && final(self)@
                    == old(self)@,
            },
    {
        match self.frames.pop() {
            Some(frame) => {
                assert(self@.frames =~= old(self)@.frames.drop_last());
                Ok(frame)
            },
            None => Err(RuntimeError::new("frame underflow")),
        }
    }

    /// Sets the offset of the running frame's next instruction.
    fn set_ip(&mut self, ip: usize)
        requires
            old(self).wf(),
            old(self).frames.len() > 0,
        ensures
            final(self).wf(),
            final(self)@ == old(self)@.jump(ip as int),
    {
        let n = self.frames.len() - 1;
        self.frames[n].ip = ip;
        assert(self@.frames =~= old(self)@.jump(ip as int).frames);
    }

    /// Takes `n` values off the stack at once.
    fn drop_values(&mut self, n: usize)
        requires
            old(self).wf(),
            n <= old(self).sp,
        ensures
            final(self).wf(),
            final(self)@ == old(self)@.drop(n as int),
    {
        self.sp -= n;
    }
}

/// An error whose message is a fixed text followed by a name.
fn named_error(text: &str, name: &str) -> (e: RuntimeError)
    ensures
        e@ == text@ + name@,
{
    let mut message = String::new();
    push_str(&mut message, text);
    push_str(&mut message, name);
    assert(message@ =~= text@ + name@);
    RuntimeError { message }
}

/// An error whose message is a fixed text followed by the types of two
/// values, with a space between them.
fn two_types_error(text: &str, left: &Object, right: &Object) -> (e: RuntimeError)
    ensures
        e@ == text@ + left@.kind_name() + " "@ + right@.kind_name(),
{
    let mut message = String::new();
    push_str(&mut message, text);
    push_str(&mut message, left.kind_str());
    push_str(&mut message, " ");
    push_str(&mut message, right.kind_str());
    assert(message@ =~= text@ + left@.kind_name() + " "@ + right@.kind_name());
    RuntimeError { message }
}

impl VM {
    /// An arithmetic instruction: takes the two operands off the stack
    /// and pushes the result.
    fn exec_binary_op(&mut self, op: Opcode) -> (r: Result<(), RuntimeError>)
        requires
            old(self).wf(),
        ensures
            final(self).wf(),
            agrees(r, final(self)@, old(self)@.binary_op(op)),
    {
        let right = match self.pop() {
            Ok(value) => value,
            Err(e) => {
                return Err(e);
            },
        };
        let left = match self.pop() {
            Ok(value) => value,
            Err(e) => {
                return Err(e);
            },
        };
        assert(self@ == old(self)@.drop(2));
        match (left, right) {
            (Object::Integer(left), Object::Integer(right)) => self.exec_binary_int_op(
                op,
                left,
                right,
            ),
            (Object::String(left), Object::String(right)) => self.exec_binary_string_op(
                op,
                left,
                right,
            ),
            (left, right) => Err(
                two_types_error("unsupported types for binary operation: ", &left, &right),
            ),
        }
    }

    /// Computes an arithmetic instruction on two integers and pushes the
    /// result. Sums, differences and products wrap around; a division by
    /// zero is an error.
    fn exec_binary_int_op(&mut self, op: Opcode, left: i64, right: i64) -> (r: Result<
        (),
        RuntimeError,
    >)
        requires
            old(self).wf(),
        ensures
            final(self).wf(),
            agrees(r, final(self)@, old(self)@.push_outcome(integer_binary(op, left, right))),
    {
        let result = match op {
            Opcode::OpAdd => left.wrapping_add(right),
            Opcode::OpSub => left.wrapping_sub(right),
            Opcode::OpMul => left.wrapping_mul(right),
            Opcode::OpDiv => {
                if right == 0 {
                    return error("division by zero");
                }
                divide(left, right)
            },
            _ => {
                return Err(named_error("unknown integer operator: ", op.name_str()));
            },
        };
        self.push(Object::Integer(result))
    }

    /// Computes an arithmetic instruction on two strings and pushes the
    /// result.
    fn exec_binary_string_op(&mut self, op: Opcode, left: String, right: String) -> (r: Result<
        (),
        RuntimeError,
    >)
        requires
            old(self).wf(),
        ensures
            final(self).wf(),
            agrees(r, final(self)@, old(self)@.push_outcome(string_binary(op, left@, right@))),
    {
        match op {
            Opcode::OpAdd => {
                let mut result = left;
                result.append(right.as_str());
                self.push(Object::String(result))
            },
            _ => Err(named_error("unknown string operator: ", op.name_str())),
        }
    }

    /// A comparison instruction: takes the two operands off the stack and
    /// pushes the boolean.
    pub fn exec_comparison(&mut self, op: Opcode) -> (r: Result<(), RuntimeError>)
        requires
            old(self).wf(),
        ensures
            final(self).wf(),
            agrees(r, final(self)@, old(self)@.comparison_op(op)),
    {
        let right = match self.pop() {
            Ok(value) => value,
            Err(e) => {
                return Err(e);
            },
        };
        let left = match self.pop() {
            Ok(value) => value,
            Err(e) => {
                return Err(e);
            },
        };
        assert(self@ == old(self)@.drop(2));
        match (left, right) {
            (Object::Integer(left), Object::Integer(right)) => self.exec_comparison_int_op(
                op,
                left,
                right,
            ),
            (Object::Boolean(left), Object::Boolean(right)) => match op {
                Opcode::OpEqual => self.push(Object::Boolean(left == right)),
                Opcode::OpNotEqual => self.push(Object::Boolean(left != right)),
                _ => Err(named_error("unknown boolean operator: ", op.name_str())),
            },
            (left, right) => Err(
                two_types_error("unsupported types for comparison: ", &left, &right),
            ),
        }
    }

    /// Compares two integers and pushes the boolean.
    fn exec_comparison_int_op(&mut self, op: Opcode, left: i64, right: i64) -> (r: Result<
        (),
        RuntimeError,
    >)
        requires
            old(self).wf(),
        ensures
            final(self).wf(),
            agrees(r, final(self)@, old(self)@.push_outcome(integer_comparison(op, left, right))),
    {
        let result = match op {
            Opcode::OpEqual => left == right,
            Opcode::OpNotEqual => left != right,
            Opcode::OpGreaterThan => left > right,
            _ => {
                return Err(named_error("unknown integer operator: ", op.name_str()));
            },
        };
        self.push(Object::Boolean(result))
    }

    /// `OpBang`: replaces the top of the stack by its negation.
    fn exec_bang_op(&mut self) -> (r: Result<(), RuntimeError>)
        requires
            old(self).wf(),
        ensures
            final(self).wf(),
            agrees(r, final(self)@, old(self)@.bang_op()),
    {
        let operand = match self.pop() {
            Ok(value) => value,
            Err(e) => {
                return Err(e);
            },
        };
        match operand {
            Object::Boolean(value) => self.push(Object::Boolean(!value)),
            Object::Null => self.push(Object::Boolean(true)),
            _ => self.push(Object::Boolean(false)),
        }
    }

    /// `OpMinus`: replaces the integer on top of the stack by its
    /// negative.
    fn exec_minus_op(&mut self) -> (r: Result<(), RuntimeError>)
        requires
            old(self).wf(),
        ensures
            final(self).wf(),
            agrees(r, final(self)@, old(self)@.minus_op()),
    {
        let operand = match self.pop() {
            Ok(value) => value,
            Err(e) => {
                return Err(e);
            },
        };
        match operand {
            Object::Integer(value) => self.push(Object::Integer(0i64.wrapping_sub(value))),
            _ => {
                let printed = operand.to_string();
                Err(named_error("unsupported type for negation: ", printed.as_str()))
            },
        }
    }

    /// An array of the stack's values from `start_index` up to
    /// `end_index`.
    fn build_array(&self, start_index: usize, end_index: usize) -> (r: Result<
        Object,
        RuntimeError,
    >)
        requires
            start_index <= end_index <= self.stack.len(),
        ensures
            outcome(r) == Ok::<Value, Seq<char>>(
                Value::Array(self@.stack.subrange(start_index as int, end_index as int)),
            ),
    {
        Ok(Object::Array(copy_objects(&self.stack, start_index, end_index)))
    }

    /// A hash of the stack's values from `start_index` up to `end_index`,
    /// keys and values in turn.
    fn build_hash(&self, start_index: usize, end_index: usize) -> (r: Result<Object, RuntimeError>)
        requires
            start_index <= end_index <= self.stack.len(),
        ensures
            match build_hash(
                self@.stack.subrange(start_index as int, end_index as int),
                0,
                Seq::empty(),
            ) {
                Ok(entries) => outcome(r) == Ok::<Value, Seq<char>>(Value::Hash(entries)),
                Err(e) => outcome(r) == Err::<Value, Seq<char>>(e),
            },
    {
        let ghost values = self@.stack.subrange(start_index as int, end_index as int);
        let mut pairs: Vec<(HashKey, Object)> = Vec::new();
        let mut i: usize = start_index;
        assert(entries_view(pairs@) =~= Seq::empty());
        proof {
            lemma_objects_view(self.stack@);
        }
        while i < end_index && end_index - i >= 2
            invariant
                start_index <= i <= end_index <= self.stack.len(),
                values == self@.stack.subrange(start_index as int, end_index as int),
                build_hash(values, 0, Seq::empty()) == build_hash(
                    values,
                    i - start_index,
                    entries_view(pairs@),
                ),
                forall|j: int|
                    0 <= j < self.stack.len() ==> #[trigger] objects_view(self.stack@)[j]
                        == object_view(self.stack[j]),
            decreases end_index - i,
        {
            let key = match HashKey::from_object(&self.stack[i]) {
                Some(key) => key,
                None => {
                    return Err(
                        named_error("unusable as hash key: ", self.stack[i].kind_str()),
                    );
                },
            };
            let value = self.stack[i + 1].clone();
            hash_insert(&mut pairs, key, value);
            i += 2;
        }
        Ok(Object::Hash(pairs))
    }
}

/// A position counted from the end where `index` is negative, as a
/// position in a collection of length `len`; `None` where it lies outside.
pub fn resolve_index(index: i64, len: usize) -> (r: Option<usize>)
    ensures
        match r {
            Some(i) => i < len && i == crate::vm::machine::from_end(index, len as nat),
            None => !(0 <= crate::vm::machine::from_end(index, len as nat) < len),
        },
{
    let position: i128 = if index < 0 {
        len as i128 + index as i128
    } else {
        index as i128
    };
    if 0 <= position && position < len as i128 {
        Some(position as usize)
    } else {
        None
    }
}

/// A slice bound brought into `0..=len`.
pub fn resolve_bound(bound: i64, len: usize) -> (r: usize)
    ensures
        r == clamp_bound(bound, len as nat),
        r <= len,
{
    let position: i128 = if bound < 0 {
        len as i128 + bound as i128
    } else {
        bound as i128
    };
    if position < 0 {
        0
    } else if position > len as i128 {
        len
    } else {
        position as usize
    }
}

/// The two bounds of a slice as offsets.
pub fn resolve_bounds(start: &Object, stop: &Object, len: usize) -> (r: Result<
    (usize, usize),
    RuntimeError,
>)
    ensures
        match slice_bounds(start@, stop@, len as nat) {
            Ok((from, to)) => r matches Ok(pair) && pair.0 == from && pair.1 == to && pair.0 <= len
                && pair.1 <= len,
            Err(e) => r matches Err(x) && x@ == e,
        },
{
    let from = match start {
        Object::Integer(start) => resolve_bound(*start, len),
        Object::Null => 0,
        _ => {
            return Err(RuntimeError::new("slice start must be an integer"));
        },
    };
    let to = match stop {
        Object::Integer(stop) => resolve_bound(*stop, len),
        Object::Null => len,
        _ => {
            return Err(RuntimeError::new("slice stop must be an integer"));
        },
    };
    Ok((from, to))
}

impl VM {
    /// `left[index]`: computes the element and pushes it.
    fn exec_index_op(&mut self, left: Object, index: Object) -> (r: Result<(), RuntimeError>)
        requires
            old(self).wf(),
        ensures
            final(self).wf(),
            agrees(r, final(self)@, old(self)@.push_outcome(index_value(left@, index@))),
    {
        match (left, index) {
            (Object::Array(elements), Object::Integer(index)) => self.exec_array_index(
                elements,
                index,
            ),
            (Object::Hash(pairs), index) => self.exec_hash_index(pairs, index),
            (Object::String(string), Object::Integer(index)) => self.exec_string_index(
                string,
                index,
            ),
            (left, index) => {
                let mut message = String::new();
                push_str(&mut message, "index operator not supported: ");
                push_str(&mut message, left.kind_str());
                push_str(&mut message, "[");
                push_str(&mut message, index.kind_str());
                push_str(&mut message, "]");
                assert(message@ =~= unsupported_index_text(left@, index@));
                Err(RuntimeError { message })
            },
        }
    }

    /// Pushes the element of an array at `index`, null where there is
    /// none.
    fn exec_array_index(&mut self, elements: Vec<Object>, index: i64) -> (r: Result<
        (),
        RuntimeError,
    >)
        requires
            old(self).wf(),
        ensures
            final(self).wf(),
            agrees(
                r,
                final(self)@,
                old(self)@.push(array_index(objects_view(elements@), index)),
            ),
    {
        proof {
            lemma_objects_view(elements@);
        }
        match resolve_index(index, elements.len()) {
            Some(i) => self.push(elements[i].clone()),
            None => self.push(Object::Null),
        }
    }

    /// Pushes what a hash holds under `index`, null where it holds
    /// nothing.
    fn exec_hash_index(&mut self, pairs: Vec<(HashKey, Object)>, index: Object) -> (r: Result<
        (),
        RuntimeError,
    >)
        requires
            old(self).wf(),
        ensures
            final(self).wf(),
            agrees(
                r,
                final(self)@,
                old(self)@.push_outcome(hash_index(entries_view(pairs@), index@)),
            ),
    {
        let key = match HashKey::from_object(&index) {
            Some(key) => key,
            None => {
                return Err(named_error("unusable as hash key: ", index.kind_str()));
            },
        };
        match hash_get(&pairs, &key) {
            Some(value) => self.push(value),
            None => self.push(Object::Null),
        }
    }

    /// Pushes the one-byte string at a byte offset of a string, null where
    /// there is none.
    fn exec_string_index(&mut self, string: String, index: i64) -> (r: Result<(), RuntimeError>)
        requires
            old(self).wf(),
        ensures
            final(self).wf(),
            agrees(r, final(self)@, old(self)@.push(string_index(string@, index))),
    {
        let len = byte_len(string.as_str());
        match resolve_index(index, len) {
            Some(i) => match byte_slice(string.as_str(), i, i + 1) {
                Some(part) => self.push(Object::String(part)),
                None => self.push(Object::Null),
            },
            None => self.push(Object::Null),
        }
    }

    /// `left[start:stop]`: computes the slice and pushes it.
    fn exec_slice_index_op(&mut self, left: Object, start: Object, stop: Object) -> (r: Result<
        (),
        RuntimeError,
    >)
        requires
            old(self).wf(),
        ensures
            final(self).wf(),
            agrees(r, final(self)@, old(self)@.push_outcome(slice_value(left@, start@, stop@))),
    {
        match left {
            Object::Array(elements) => self.exec_array_slice_index(elements, start, stop),
            Object::String(string) => self.exec_string_slice_index(string, start, stop),
            left => {
                let mut message = String::new();
                push_str(&mut message, "slice index operator not supported: ");
                push_str(&mut message, left.kind_str());
                push_str(&mut message, "[");
                push_str(&mut message, start.kind_str());
                push_str(&mut message, ":");
                push_str(&mut message, stop.kind_str());
                push_str(&mut message, "]");
                assert(message@ =~= unsupported_slice_text(left@, start@, stop@));
                Err(RuntimeError { message })
            },
        }
    }

    /// Pushes the part of an array between two bounds.
    fn exec_array_slice_index(&mut self, elements: Vec<Object>, start: Object, stop: Object) -> (r:
        Result<(), RuntimeError>)
        requires
            old(self).wf(),
        ensures
            final(self).wf(),
            agrees(
                r,
                final(self)@,
                old(self)@.push_outcome(
                    slice_value(Value::Array(objects_view(elements@)), start@, stop@),
                ),
            ),
    {
        proof {
            lemma_objects_view(elements@);
        }
        let (from, to) = match resolve_bounds(&start, &stop, elements.len()) {
            Ok(bounds) => bounds,
            Err(e) => {
                return Err(e);
            },
        };
        if from <= to {
            self.push(Object::Array(copy_objects(&elements, from, to)))
        } else {
            let empty: Vec<Object> = Vec::new();
            assert(objects_view(empty@) =~= Seq::empty());
            self.push(Object::Array(empty))
        }
    }

    /// Pushes the part of a string between two byte offsets.
    fn exec_string_slice_index(&mut self, string: String, start: Object, stop: Object) -> (r:
        Result<(), RuntimeError>)
        requires
            old(self).wf(),
        ensures
            final(self).wf(),
            agrees(
                r,
                final(self)@,
                old(self)@.push_outcome(slice_value(Value::Str(string@), start@, stop@)),
            ),
    {
        let len = byte_len(string.as_str());
        let (from, to) = match resolve_bounds(&start, &stop, len) {
            Ok(bounds) => bounds,
            Err(e) => {
                return Err(e);
            },
        };
        match byte_slice(string.as_str(), from, to) {
            Some(part) => self.push(Object::String(part)),
            None => self.push(Object::String(String::new())),
        }
    }

    /// `OpIndex`.
    fn exec_index(&mut self) -> (r: Result<(), RuntimeError>)
        requires
            old(self).wf(),
        ensures
            final(self).wf(),
            agrees(r, final(self)@, old(self)@.index_op()),
    {
        let index = match self.pop() {
            Ok(value) => value,
            Err(e) => {
                return Err(e);
            },
        };
        let left = match self.pop() {
            Ok(value) => value,
            Err(e) => {
                return Err(e);
            },
        };
        assert(self@ == old(self)@.drop(2));
        self.exec_index_op(left, index)
    }

    /// `OpSliceIndex`.
    fn exec_slice_index(&mut self) -> (r: Result<(), RuntimeError>)
        requires
            old(self).wf(),
        ensures
            final(self).wf(),
            agrees(r, final(self)@, old(self)@.slice_op()),
    {
        let stop = match self.pop() {
            Ok(value) => value,
            Err(e) => {
                return Err(e);
            },
        };
        let start = match self.pop() {
            Ok(value) => value,
            Err(e) => {
                return Err(e);
            },
        };
        let left = match self.pop() {
            Ok(value) => value,
            Err(e) => {
                return Err(e);
            },
        };
        assert(self@ == old(self)@.drop(3));
        self.exec_slice_index_op(left, start, stop)
    }

    /// `OpArray n`.
    fn exec_array(&mut self, n: usize) -> (r: Result<(), RuntimeError>)
        requires
            old(self).wf(),
        ensures
            final(self).wf(),
            agrees(r, final(self)@, old(self)@.array_op(n as int)),
    {
        if self.sp < n {
            return error("stack underflow");
        }
        let array = match self.build_array(self.sp - n, self.sp) {
            Ok(array) => array,
            Err(e) => {
                return Err(e);
            },
        };
        self.drop_values(n);
        self.push(array)
    }

    /// `OpHash n`.
    fn exec_hash(&mut self, n: usize) -> (r: Result<(), RuntimeError>)
        requires
            old(self).wf(),
        ensures
            final(self).wf(),
            agrees(r, final(self)@, old(self)@.hash_op(n as int)),
    {
        if self.sp < n {
            return error("stack underflow");
        }
        let hash = match self.build_hash(self.sp - n, self.sp) {
            Ok(hash) => hash,
            Err(e) => {
                return Err(e);
            },
        };
        self.drop_values(n);
        self.push(hash)
    }

    /// `OpConstant index`.
    fn exec_constant(&mut self, index: usize) -> (r: Result<(), RuntimeError>)
        requires
            old(self).wf(),
        ensures
            final(self).wf(),
            agrees(r, final(self)@, old(self)@.constant_op(index as int)),
    {
        if index >= self.constants.len() {
            return error("constant index out of range");
        }
        proof {
            lemma_objects_view(self.constants@);
        }
        let constant = self.constants[index].clone();
        self.push(constant)
    }

    /// `OpPop`.
    fn exec_pop(&mut self) -> (r: Result<(), RuntimeError>)
        requires
            old(self).wf(),
        ensures
            final(self).wf(),
            agrees(r, final(self)@, old(self)@.pop_op()),
    {
        match self.pop() {
            Ok(_) => Ok(()),
            Err(e) => Err(e),
        }
    }

    /// `OpSetGlobal index`.
    fn exec_set_global(&mut self, index: usize) -> (r: Result<(), RuntimeError>)
        requires
            old(self).wf(),
            index < GLOBALS_SIZE,
        ensures
            final(self).wf(),
            agrees(r, final(self)@, old(self)@.set_global_op(index as int)),
    {
        let value = match self.pop() {
            Ok(value) => value,
            Err(e) => {
                return Err(e);
            },
        };
        proof {
            lemma_objects_view_update(self.globals@, index as int, value);
            lemma_objects_view_update(self.stack@, self.sp as int, Object::Null);
        }
        self.globals[index] = value;
        self.stack[self.sp] = Object::Null;
        Ok(())
    }

    /// `OpGetGlobal index`.
    fn exec_get_global(&mut self, index: usize) -> (r: Result<(), RuntimeError>)
        requires
            old(self).wf(),
            index < GLOBALS_SIZE,
        ensures
            final(self).wf(),
            agrees(r, final(self)@, old(self)@.push(old(self)@.globals[index as int])),
    {
        proof {
            lemma_objects_view(self.globals@);
        }
        let value = self.globals[index].clone();
        self.push(value)
    }

    /// `OpSetLocal index`.
    fn exec_set_local(&mut self, index: usize) -> (r: Result<(), RuntimeError>)
        requires
            old(self).wf(),
            old(self).frames.len() > 0,
            index < 256,
        ensures
            final(self).wf(),
            agrees(r, final(self)@, old(self)@.set_local_op(index as int)),
    {
        let slot = self.current_frame().base_pointer + index;
        let value = match self.pop() {
            Ok(value) => value,
            Err(e) => {
                return Err(e);
            },
        };
        if slot >= STACK_SIZE {
            return error("local index out of range");
        }
        proof {
            lemma_objects_view_update(self.stack@, slot as int, value);
            lemma_objects_view_update(
                self.stack@.update(slot as int, value),
                self.sp as int,
                Object::Null,
            );
        }
        self.stack[slot] = value;
        self.stack[self.sp] = Object::Null;
        Ok(())
    }

    /// `OpGetLocal index`.
    fn exec_get_local(&mut self, index: usize) -> (r: Result<(), RuntimeError>)
        requires
            old(self).wf(),
            old(self).frames.len() > 0,
            index < 256,
        ensures
            final(self).wf(),
            agrees(r, final(self)@, old(self)@.get_local_op(index as int)),
    {
        let slot = self.current_frame().base_pointer + index;
        if slot >= STACK_SIZE {
            return error("local index out of range");
        }
        proof {
            lemma_objects_view(self.stack@);
        }
        let value = self.stack[slot].clone();
        self.push(value)
    }

    /// `OpGetBuiltin index`.
    fn exec_get_builtin(&mut self, index: usize) -> (r: Result<(), RuntimeError>)
        requires
            old(self).wf(),
        ensures
            final(self).wf(),
            agrees(r, final(self)@, old(self)@.get_builtin_op(index as int)),
    {
        match Builtin::from_index(index) {
            Some(builtin) => self.push(Object::BuiltInFunction(builtin)),
            None => {
                let mut message = String::new();
                push_str(&mut message, "builtin not found: ");
                push_decimal(&mut message, index as u64);
                assert(message@ =~= "builtin not found: "@ + crate::text::decimal(index as nat));
                Err(RuntimeError { message })
            },
        }
    }

    /// `OpGetFree index`.
    fn exec_get_free(&mut self, index: usize) -> (r: Result<(), RuntimeError>)
        requires
            old(self).wf(),
            old(self).frames.len() > 0,
        ensures
            final(self).wf(),
            agrees(r, final(self)@, old(self)@.get_free_op(index as int)),
    {
        let frame = self.current_frame();
        proof {
            lemma_objects_view(frame.cl.free@);
        }
        if index >= frame.cl.free.len() {
            return error("free variable index out of range");
        }
        let value = frame.cl.free[index].clone();
        self.push(value)
    }

    /// `OpCurrentClosure`.
    fn exec_current_closure(&mut self) -> (r: Result<(), RuntimeError>)
        requires
            old(self).wf(),
            old(self).frames.len() > 0,
        ensures
            final(self).wf(),
            agrees(r, final(self)@, old(self)@.current_closure_op()),
    {
        let closure = self.current_frame().cl.clone();
        self.push(Object::Closure(closure))
    }

    /// `OpClosure index n`: makes a closure of the compiled function at
    /// `const_index` and the top `num_free` values, and pushes it in their
    /// place.
    fn push_closure(&mut self, const_index: usize, num_free: usize) -> (r: Result<
        (),
        RuntimeError,
    >)
        requires
            old(self).wf(),
        ensures
            final(self).wf(),
            agrees(r, final(self)@, old(self)@.closure_op(const_index as int, num_free as int)),
    {
        if const_index >= self.constants.len() {
            return error("constant index out of range");
        }
        proof {
            lemma_objects_view(self.constants@);
        }
        match &self.constants[const_index] {
            Object::CompiledFunction(func) => {
                let func = func.clone();
                if self.sp < num_free {
                    return error("stack underflow");
                }
                let free = copy_objects(&self.stack, self.sp - num_free, self.sp);
                self.drop_values(num_free);
                self.push(Object::Closure(Closure { func, free }))
            },
            other => Err(named_error("not a function: ", other.kind_str())),
        }
    }

    /// `OpJumpNotTruthy target`, met at offset `ip`.
    fn exec_jump_not_truthy(&mut self, ip: usize, target: usize) -> (r: Result<(), RuntimeError>)
        requires
            old(self).wf(),
            old(self).frames.len() > 0,
            ip + 3 <= usize::MAX,
        ensures
            final(self).wf(),
            agrees(r, final(self)@, old(self)@.jump_not_truthy_op(ip as int, target as int)),
    {
        let condition = match self.pop() {
            Ok(value) => value,
            Err(e) => {
                return Err(e);
            },
        };
        if condition.is_truthy() {
            self.set_ip(ip + 3);
        } else {
            self.set_ip(target);
        }
        Ok(())
    }

    /// Ends the running call with `value` as its result.
    fn leave(&mut self, value: Object) -> (r: Result<(), RuntimeError>)
        requires
            old(self).wf(),
        ensures
            final(self).wf(),
            agrees(r, final(self)@, old(self)@.leave(value@)),
    {
        if self.frames.len() < 2 {
            return error("frame underflow");
        }
        let base_pointer = self.current_frame().base_pointer;
        if base_pointer < 1 {
            return error("stack underflow");
        }
        let frame = self.pop_frame();
        self.sp = base_pointer - 1;
        self.push(value)
    }

    /// `OpReturnValue`.
    fn exec_return_value(&mut self) -> (r: Result<(), RuntimeError>)
        requires
            old(self).wf(),
        ensures
            final(self).wf(),
            agrees(r, final(self)@, old(self)@.return_value_op()),
    {
        let value = match self.pop() {
            Ok(value) => value,
            Err(e) => {
                return Err(e);
            },
        };
        self.leave(value)
    }

    /// `OpCall n`: calls the closure or built-in function that lies below
    /// its `num_args` arguments on the stack.
    fn exec_call(&mut self, num_args: usize) -> (r: Result<(), RuntimeError>)
        requires
            old(self).wf(),
            old(self).frames.len() > 0,
            num_args < 256,
            old(self)@.frame().ip + 2 <= usize::MAX,
        ensures
            final(self).wf(),
            agrees(r, final(self)@, old(self)@.call_op(num_args as int, old(self)@.frame().ip)),
    {
        if self.sp < num_args + 1 {
            return error("stack underflow");
        }
        proof {
            lemma_objects_view(self.stack@);
        }
        match &self.stack[self.sp - 1 - num_args] {
            Object::Closure(cl) => {
                let cl = cl.clone();
                self.call_closure(cl, num_args)
            },
            Object::BuiltInFunction(builtin_fn) => {
                let builtin_fn = *builtin_fn;
                self.call_builtin(builtin_fn, num_args)
            },
            _ => error("calling non-closure and non-builtin"),
        }
    }

    /// Opens a frame for a call of `cl` with `num_args` arguments on the
    /// stack.
    fn call_closure(&mut self, cl: Closure, num_args: usize) -> (r: Result<(), RuntimeError>)
        requires
            old(self).wf(),
            old(self).frames.len() > 0,
            num_args <= old(self).sp,
            old(self)@.frame().ip + 2 <= usize::MAX,
        ensures
            final(self).wf(),
            agrees(
                r,
                final(self)@,
                old(self)@.call_closure(
                    cl.func@,
                    objects_view(cl.free@),
                    num_args as int,
                    old(self)@.frame().ip,
                ),
            ),
    {
        let num_locals = cl.func.num_locals;
        let num_params = cl.func.num_parameters;
        if num_args != num_params {
            let mut message = String::new();
            push_str(&mut message, "wrong number of arguments: want=");
            push_decimal(&mut message, num_params as u64);
            push_str(&mut message, ", got=");
            push_decimal(&mut message, num_args as u64);
            assert(message@ =~= wrong_arguments_text(num_params as nat, num_args as nat));
            return Err(RuntimeError { message });
        }
        let base_pointer = self.sp - num_args;
        if num_locals > STACK_SIZE - base_pointer {
            return error("stack overflow");
        }
        if self.frames.len() >= MAX_FRAMES {
            return error("frame overflow");
        }
        let ip = self.current_frame().ip;
        self.set_ip(ip + 2);
        let frame = Frame::new(cl, base_pointer);
        self.sp = base_pointer + num_locals;
        self.frames.push(frame);
        assert(self@.frames =~= old(self)@.jump(ip + 2).frames.push(frame@));
        Ok(())
    }

    /// Calls a built-in function with the top `num_args` values of the
    /// stack and puts its result in place of callee and arguments.
    fn call_builtin(&mut self, builtin: Builtin, num_args: usize) -> (r: Result<(), RuntimeError>)
        requires
            old(self).wf(),
            old(self).frames.len() > 0,
            num_args + 1 <= old(self).sp,
            old(self)@.frame().ip + 2 <= usize::MAX,
        ensures
            final(self).wf(),
            agrees(
                r,
                final(self)@,
                old(self)@.call_builtin(builtin, num_args as int, old(self)@.frame().ip),
            ),
    {
        let args = copy_objects(&self.stack, self.sp - num_args, self.sp);
        let result = match builtin.call(args, &mut self.output) {
            Ok(value) => value,
            Err(e) => {
                return Err(e);
            },
        };
        self.sp = self.sp - num_args - 1;
        match self.push(result) {
            Ok(()) => {},
            Err(e) => {
                return Err(e);
            },
        }
        let ip = self.current_frame().ip;
        self.set_ip(ip + 2);
        Ok(())
    }
}

impl VM {
    /// An instruction without operands that works on the stack.
    fn operate_plain(&mut self, op: Opcode) -> (r: Result<(), RuntimeError>)
        requires
            old(self).wf(),
            old(self).frames.len() > 0,
        ensures
            final(self).wf(),
            agrees(r, final(self)@, old(self)@.operate_plain(op)),
    {
        match op {
            Opcode::OpPop => self.exec_pop(),
            Opcode::OpAdd | Opcode::OpSub | Opcode::OpMul | Opcode::OpDiv => self.exec_binary_op(
                op,
            ),
            Opcode::OpTrue => self.push(Object::Boolean(true)),
            Opcode::OpFalse => self.push(Object::Boolean(false)),
            Opcode::OpNull => self.push(Object::Null),
            Opcode::OpEqual | Opcode::OpNotEqual | Opcode::OpGreaterThan => self.exec_comparison(
                op,
            ),
            Opcode::OpBang => self.exec_bang_op(),
            Opcode::OpMinus => self.exec_minus_op(),
            Opcode::OpIndex => self.exec_index(),
            Opcode::OpSliceIndex => self.exec_slice_index(),
            Opcode::OpCurrentClosure => self.exec_current_closure(),
            _ => Ok(()),
        }
    }

    /// An instruction with operands that works on the stack and the
    /// globals.
    fn operate_with(&mut self, op: Opcode, first: usize, second: usize) -> (r: Result<
        (),
        RuntimeError,
    >)
        requires
            old(self).wf(),
            old(self).frames.len() > 0,
            first < 65536,
            op.length() == 2 ==> first < 256,
        ensures
            final(self).wf(),
            agrees(r, final(self)@, old(self)@.operate_with(op, first as int, second as int)),
    {
        match op {
            Opcode::OpConstant => self.exec_constant(first),
            Opcode::OpSetGlobal => self.exec_set_global(first),
            Opcode::OpGetGlobal => self.exec_get_global(first),
            Opcode::OpArray => self.exec_array(first),
            Opcode::OpHash => self.exec_hash(first),
            Opcode::OpSetLocal => self.exec_set_local(first),
            Opcode::OpGetLocal => self.exec_get_local(first),
            Opcode::OpGetBuiltin => self.exec_get_builtin(first),
            Opcode::OpClosure => self.push_closure(first, second),
            Opcode::OpGetFree => self.exec_get_free(first),
            _ => Ok(()),
        }
    }

    /// Executes the instruction at the running frame's offset.
    pub fn step(&mut self) -> (r: Result<(), RuntimeError>)
        requires
            old(self).wf(),
            !old(self)@.halted(),
        ensures
            final(self).wf(),
            agrees(r, final(self)@, old(self)@.step()),
    {
        let frame = self.current_frame();
        let ip = frame.ip;
        let code = frame.instructions();
        let byte = code[ip];
        let op = match Opcode::from_byte(byte) {
            Some(op) => op,
            None => {
                let mut message = String::new();
                push_str(&mut message, "Invalid opcode: ");
                push_decimal(&mut message, byte as u64);
                assert(message@ =~= invalid_opcode_text(byte));
                return Err(RuntimeError { message });
            },
        };
        let len = op.instruction_len();
        if code.len() - ip < len {
            return error("truncated instruction");
        }
        let first: usize = if len == 2 {
            code[ip + 1] as usize
        } else if len >= 3 {
            (code[ip + 1] as usize) * 256 + (code[ip + 2] as usize)
        } else {
            0
        };
        let second: usize = if len >= 4 {
            code[ip + 3] as usize
        } else {
            0
        };
        let ghost before = self@;
        proof {
            before.lemma_operate_keeps_frames(op, first as int, second as int);
        }
        match op {
            Opcode::OpJump => {
                self.set_ip(first);
                Ok(())
            },
            Opcode::OpJumpNotTruthy => self.exec_jump_not_truthy(ip, first),
            Opcode::OpCall => self.exec_call(first),
            Opcode::OpReturnValue => self.exec_return_value(),
            Opcode::OpReturn => self.leave(Object::Null),
            _ => {
                let done = if len == 1 {
                    self.operate_plain(op)
                } else {
                    self.operate_with(op, first, second)
                };
                match done {
                    Ok(()) => {
                        self.set_ip(ip + len);
                        Ok(())
                    },
                    Err(e) => Err(e),
                }
            },
        }
    }
    /// Whether nothing is left to run.
    pub fn halted(&self) -> (b: bool)
        ensures
            b == self@.halted(),
    {
        if self.frames.len() == 0 {
            return true;
        }
        let frame = self.current_frame();
        frame.ip >= frame.instructions().len()
    }

    /// Runs the program for at most `max_steps` instructions: until the
    /// running frame is past its last instruction, or an instruction
    /// fails, or the steps are used up.
    pub fn run_bounded(&mut self, max_steps: u64) -> (r: Result<(), RuntimeError>)
        requires
            old(self).wf(),
        ensures
            final(self).wf(),
            agrees(r, final(self)@, old(self)@.run(max_steps as nat)),
    {
        let mut fuel: u64 = max_steps;
        loop
            invariant
                self.wf(),
                old(self)@.run(max_steps as nat) == self@.run(fuel as nat),
            decreases fuel,
        {
            if self.halted() {
                return Ok(());
            }
            if fuel == 0 {
                return error("step limit exceeded");
            }
            let ghost before = self@;
            match self.step() {
                Ok(()) => {},
                Err(e) => {
                    return Err(e);
                },
            }
            fuel -= 1;
        }
    }

    /// Runs the program until the running frame is past its last
    /// instruction or an instruction fails. The first error ends the run.
    /// A run of more than 2^64 - 1 instructions is given up.
    pub fn run(&mut self) -> (r: Result<(), RuntimeError>)
        requires
            old(self).wf(),
        ensures
            final(self).wf(),
            agrees(r, final(self)@, old(self)@.run(u64::MAX as nat)),
    {
        self.run_bounded(u64::MAX)
    }
}

} // verus!
