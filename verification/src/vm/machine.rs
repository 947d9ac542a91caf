//! What the virtual machine does, stated over mathematical values: the
//! machine's state as sequences, and one function from state to state for
//! each kind of instruction.

use crate::code::{invalid_opcode_text, u16_of, Opcode};

use crate::object::{inspect, lookup, insert, Builtin, FunctionView, KeyView, Value};
use crate::text::{byte_range, decimal, wrapping_quotient};
use crate::vm::frame::FrameView;
use vstd::prelude::*;
use vstd::utf8::encode_utf8;

verus! {

pub const STACK_SIZE: usize = 2048;

pub const GLOBALS_SIZE: usize = 65536;

pub const MAX_FRAMES: usize = 1024;

/// The state of the virtual machine.
#[verifier::ext_equal]
pub struct Machine {
    pub constants: Seq<Value>,
    pub stack: Seq<Value>,
    /// The index of the next free stack slot.
    pub sp: int,
    pub globals: Seq<Value>,
    pub frames: Seq<FrameView>,
    /// The lines printed so far.
    pub output: Seq<Seq<char>>,
}

/// The message for two operands that an arithmetic instruction cannot take.
pub open spec fn unsupported_binary_text(left: Value, right: Value) -> Seq<char> {
    "unsupported types for binary operation: "@ + left.kind_name() + " "@ + right.kind_name()
}

/// The message for two operands that a comparison cannot take.
pub open spec fn unsupported_comparison_text(left: Value, right: Value) -> Seq<char> {
    "unsupported types for comparison: "@ + left.kind_name() + " "@ + right.kind_name()
}

/// The message for a value that cannot be a hash key.
pub open spec fn unusable_key_text(key: Value) -> Seq<char> {
    "unusable as hash key: "@ + key.kind_name()
}

/// The message for an index expression on values that have none.
pub open spec fn unsupported_index_text(left: Value, index: Value) -> Seq<char> {
    "index operator not supported: "@ + left.kind_name() + "["@ + index.kind_name() + "]"@
}

/// The message for a slice expression on a value that has none.
pub open spec fn unsupported_slice_text(left: Value, start: Value, stop: Value) -> Seq<char> {
    "slice index operator not supported: "@ + left.kind_name() + "["@ + start.kind_name() + ":"@
        + stop.kind_name() + "]"@
}

/// The message for a call with the wrong number of arguments.
pub open spec fn wrong_arguments_text(want: nat, got: nat) -> Seq<char> {
    "wrong number of arguments: want="@ + decimal(want) + ", got="@ + decimal(got)
}

/// The result of an arithmetic instruction on two integers.
pub open spec fn integer_binary(op: Opcode, left: i64, right: i64) -> Result<Value, Seq<char>> {
    match op {
        Opcode::OpAdd => Ok(Value::Integer(left.wrapping_add(right))),
        Opcode::OpSub => Ok(Value::Integer(left.wrapping_sub(right))),
        Opcode::OpMul => Ok(Value::Integer(left.wrapping_mul(right))),
        Opcode::OpDiv => if right == 0 {
            Err("division by zero"@)
        } else {
            Ok(Value::Integer(wrapping_quotient(left, right)))
        },
        _ => Err("unknown integer operator: "@ + op.name()),
    }
}

/// The result of an arithmetic instruction on two strings.
pub open spec fn string_binary(op: Opcode, left: Seq<char>, right: Seq<char>) -> Result<
    Value,
    Seq<char>,
> {
    match op {
        Opcode::OpAdd => Ok(Value::Str(left + right)),
        _ => Err("unknown string operator: "@ + op.name()),
    }
}

/// The result of an arithmetic instruction: integers are added,
/// subtracted, multiplied and divided, strings are joined.
pub open spec fn binary(op: Opcode, left: Value, right: Value) -> Result<Value, Seq<char>> {
    match (left, right) {
        (Value::Integer(l), Value::Integer(r)) => integer_binary(op, l, r),
        (Value::Str(l), Value::Str(r)) => string_binary(op, l, r),
        _ => Err(unsupported_binary_text(left, right)),
    }
}

/// The result of a comparison of two integers.
pub open spec fn integer_comparison(op: Opcode, left: i64, right: i64) -> Result<Value, Seq<char>> {
    match op {
        Opcode::OpEqual => Ok(Value::Boolean(left == right)),
        Opcode::OpNotEqual => Ok(Value::Boolean(left != right)),
        Opcode::OpGreaterThan => Ok(Value::Boolean(left > right)),
        _ => Err("unknown integer operator: "@ + op.name()),
    }
}

/// The result of a comparison: integers compare by value, booleans only
/// for equality.
pub open spec fn comparison(op: Opcode, left: Value, right: Value) -> Result<Value, Seq<char>> {
    match (left, right) {
        (Value::Integer(l), Value::Integer(r)) => integer_comparison(op, l, r),
        (Value::Boolean(l), Value::Boolean(r)) => match op {
            Opcode::OpEqual => Ok(Value::Boolean(l == r)),
            Opcode::OpNotEqual => Ok(Value::Boolean(l != r)),
            _ => Err("unknown boolean operator: "@ + op.name()),
        },
        _ => Err(unsupported_comparison_text(left, right)),
    }
}

/// `!v`.
pub open spec fn bang(operand: Value) -> Value {
    match operand {
        Value::Boolean(value) => Value::Boolean(!value),
        Value::Null => Value::Boolean(true),
        _ => Value::Boolean(false),
    }
}

/// `-v`.
pub open spec fn minus(operand: Value) -> Result<Value, Seq<char>> {
    match operand {
        Value::Integer(value) => Ok(Value::Integer(0i64.wrapping_sub(value))),
        _ => Err("unsupported type for negation: "@ + inspect(operand)),
    }
}

/// An index counted from the end where it is negative.
pub open spec fn from_end(index: i64, len: nat) -> int {
    if index < 0 {
        len + index
    } else {
        index as int
    }
}

/// The element of an array at an index; null outside the array.
pub open spec fn array_index(elements: Seq<Value>, index: i64) -> Value {
    let i = from_end(index, elements.len());
    if 0 <= i < elements.len() {
        elements[i]
    } else {
        Value::Null
    }
}

/// The one-byte string at a byte offset of a string; null where the offset
/// is outside the string or the byte there is part of a longer character.
pub open spec fn string_index(text: Seq<char>, index: i64) -> Value {
    let i = from_end(index, encode_utf8(text).len());
    match byte_range(text, i, i + 1) {
        Some(part) => Value::Str(part),
        None => Value::Null,
    }
}

/// What a hash holds under a value; null where it holds nothing.
pub open spec fn hash_index(entries: Seq<(KeyView, Value)>, index: Value) -> Result<
    Value,
    Seq<char>,
> {
    match index.key() {
        None => Err(unusable_key_text(index)),
        Some(key) => match lookup(entries, key) {
            Some(value) => Ok(value),
            None => Ok(Value::Null),
        },
    }
}

/// `left[index]`.
pub open spec fn index_value(left: Value, index: Value) -> Result<Value, Seq<char>> {
    match (left, index) {
        (Value::Array(elements), Value::Integer(i)) => Ok(array_index(elements, i)),
        (Value::Hash(entries), _) => hash_index(entries, index),
        (Value::Str(text), Value::Integer(i)) => Ok(string_index(text, i)),
        _ => Err(unsupported_index_text(left, index)),
    }
}

/// A slice bound brought into `0..=len`: counted from the end where it is
/// negative, then cut to the range.
pub open spec fn clamp_bound(bound: i64, len: nat) -> int {
    let b = from_end(bound, len);
    if b < 0 {
        0
    } else if b > len {
        len as int
    } else {
        b
    }
}

/// The two bounds of a slice as offsets into a collection of length `len`:
/// a null start is 0, a null stop is `len`.
pub open spec fn slice_bounds(start: Value, stop: Value, len: nat) -> Result<
    (int, int),
    Seq<char>,
> {
    match start {
        Value::Integer(_) | Value::Null => match stop {
            Value::Integer(_) | Value::Null => Ok(
                (
                    match start {
                        Value::Integer(s) => clamp_bound(s, len),
                        _ => 0,
                    },
                    match stop {
                        Value::Integer(s) => clamp_bound(s, len),
                        _ => len as int,
                    },
                ),
            ),
            _ => Err("slice stop must be an integer"@),
        },
        _ => Err("slice start must be an integer"@),
    }
}

/// The elements of an array between two bounds; none where the bounds are
/// out of order.
pub open spec fn array_slice(elements: Seq<Value>, from: int, to: int) -> Seq<Value> {
    if 0 <= from <= to <= elements.len() {
        elements.subrange(from, to)
    } else {
        Seq::empty()
    }
}

/// The part of a string between two byte offsets; empty where the offsets
/// are out of order or fall inside a character.
pub open spec fn string_slice(text: Seq<char>, from: int, to: int) -> Seq<char> {
    match byte_range(text, from, to) {
        Some(part) => part,
        None => Seq::empty(),
    }
}

/// `left[start:stop]`.
pub open spec fn slice_value(left: Value, start: Value, stop: Value) -> Result<Value, Seq<char>> {
    match left {
        Value::Array(elements) => match slice_bounds(start, stop, elements.len()) {
            Ok((from, to)) => Ok(Value::Array(array_slice(elements, from, to))),
            Err(e) => Err(e),
        },
        Value::Str(text) => match slice_bounds(start, stop, encode_utf8(text).len()) {
            Ok((from, to)) => Ok(Value::Str(string_slice(text, from, to))),
            Err(e) => Err(e),
        },
        _ => Err(unsupported_slice_text(left, start, stop)),
    }
}

/// The hash made of the keys and values that alternate in `values` from
/// index `i` on, added to `entries` in order. A value left over at the end
/// is dropped.
pub open spec fn build_hash(values: Seq<Value>, i: int, entries: Seq<(KeyView, Value)>) -> Result<
    Seq<(KeyView, Value)>,
    Seq<char>,
>
    decreases values.len() - i,
{
    if 0 <= i && i + 1 < values.len() {
        match values[i].key() {
            None => Err(unusable_key_text(values[i])),
            Some(key) => build_hash(values, i + 2, insert(entries, key, values[i + 1])),
        }
    } else {
        Ok(entries)
    }
}

impl Machine {
    /// The stack and the table of globals have their fixed sizes, and no
    /// more frames are open than the machine allows.
    pub open spec fn wf(self) -> bool {
        &&& self.stack.len() == STACK_SIZE
        &&& 0 <= self.sp <= STACK_SIZE
        &&& self.globals.len() == GLOBALS_SIZE
        &&& self.frames.len() <= MAX_FRAMES
        &&& forall|i: int|
            0 <= i < self.frames.len() ==> 0 <= (#[trigger] self.frames[i]).base_pointer
                <= STACK_SIZE
    }

    /// The frame that runs.
    pub open spec fn frame(self) -> FrameView
        recommends
            self.frames.len() > 0,
    {
        self.frames.last()
    }

    /// The instructions that run.
    pub open spec fn code(self) -> Seq<u8> {
        self.frame().func.instructions
    }

    /// The value `k` places below the top of the stack.
    pub open spec fn peek(self, k: int) -> Value {
        self.stack[self.sp - 1 - k]
    }

    /// The top `n` values of the stack, the lowest first.
    pub open spec fn top(self, n: int) -> Seq<Value> {
        self.stack.subrange(self.sp - n, self.sp)
    }

    /// The machine with the top `n` values taken off the stack. The slots
    /// keep what they held.
    pub open spec fn drop(self, n: int) -> Machine {
        Machine { sp: self.sp - n, ..self }
    }

    /// The machine with `value` on top of the stack; a full stack is an
    /// error and stays as it is.
    pub open spec fn push(self, value: Value) -> Result<Machine, Seq<char>> {
        if self.sp >= STACK_SIZE {
            Err("stack overflow"@)
        } else {
            Ok(Machine { stack: self.stack.update(self.sp, value), sp: self.sp + 1, ..self })
        }
    }

    /// Pushes what an operation gave, or hands its error on.
    pub open spec fn push_outcome(self, r: Result<Value, Seq<char>>) -> Result<Machine, Seq<char>> {
        match r {
            Ok(value) => self.push(value),
            Err(e) => Err(e),
        }
    }

    /// The machine with the running frame's next instruction at `ip`.
    pub open spec fn jump(self, ip: int) -> Machine
        recommends
            self.frames.len() > 0,
    {
        Machine {
            frames: self.frames.update(
                self.frames.len() - 1,
                FrameView { ip, ..self.frames.last() },
            ),
            ..self
        }
    }

    /// A binary instruction: takes two operands off the stack and pushes
    /// what `f` makes of them.
    pub open spec fn binary_op(self, op: Opcode) -> Result<Machine, Seq<char>> {
        if self.sp < 2 {
            Err("stack underflow"@)
        } else {
            self.drop(2).push_outcome(binary(op, self.peek(1), self.peek(0)))
        }
    }

    /// A comparison instruction.
    pub open spec fn comparison_op(self, op: Opcode) -> Result<Machine, Seq<char>> {
        if self.sp < 2 {
            Err("stack underflow"@)
        } else {
            self.drop(2).push_outcome(comparison(op, self.peek(1), self.peek(0)))
        }
    }

    /// `OpBang`.
    pub open spec fn bang_op(self) -> Result<Machine, Seq<char>> {
        if self.sp < 1 {
            Err("stack underflow"@)
        } else {
            self.drop(1).push(bang(self.peek(0)))
        }
    }

    /// `OpMinus`.
    pub open spec fn minus_op(self) -> Result<Machine, Seq<char>> {
        if self.sp < 1 {
            Err("stack underflow"@)
        } else {
            self.drop(1).push_outcome(minus(self.peek(0)))
        }
    }

    /// `OpIndex`.
    pub open spec fn index_op(self) -> Result<Machine, Seq<char>> {
        if self.sp < 2 {
            Err("stack underflow"@)
        } else {
            self.drop(2).push_outcome(index_value(self.peek(1), self.peek(0)))
        }
    }

    /// `OpSliceIndex`.
    pub open spec fn slice_op(self) -> Result<Machine, Seq<char>> {
        if self.sp < 3 {
            Err("stack underflow"@)
        } else {
            self.drop(3).push_outcome(slice_value(self.peek(2), self.peek(1), self.peek(0)))
        }
    }

    /// `OpArray n`: the top `n` values become one array.
    pub open spec fn array_op(self, n: int) -> Result<Machine, Seq<char>> {
        if self.sp < n {
            Err("stack underflow"@)
        } else {
            self.drop(n).push(Value::Array(self.top(n)))
        }
    }

    /// `OpHash n`: the top `n` values, keys and values in turn, become one
    /// hash.
    pub open spec fn hash_op(self, n: int) -> Result<Machine, Seq<char>> {
        if self.sp < n {
            Err("stack underflow"@)
        } else {
            match build_hash(self.top(n), 0, Seq::empty()) {
                Ok(entries) => self.drop(n).push(Value::Hash(entries)),
                Err(e) => Err(e),
            }
        }
    }

    /// `OpConstant index`.
    pub open spec fn constant_op(self, index: int) -> Result<Machine, Seq<char>> {
        if index >= self.constants.len() {
            Err("constant index out of range"@)
        } else {
            self.push(self.constants[index])
        }
    }

    /// `OpPop`.
    pub open spec fn pop_op(self) -> Result<Machine, Seq<char>> {
        if self.sp < 1 {
            Err("stack underflow"@)
        } else {
            Ok(self.drop(1))
        }
    }

    /// `OpSetGlobal index`: the top of the stack goes to the global, and
    /// the slot it leaves is cleared.
    pub open spec fn set_global_op(self, index: int) -> Result<Machine, Seq<char>> {
        if self.sp < 1 {
            Err("stack underflow"@)
        } else {
            Ok(
                Machine {
                    globals: self.globals.update(index, self.peek(0)),
                    stack: self.stack.update(self.sp - 1, Value::Null),
                    sp: self.sp - 1,
                    ..self
                },
            )
        }
    }

    /// `OpSetLocal index`: the top of the stack goes to the local's slot,
    /// and then the slot it leaves is cleared.
    pub open spec fn set_local_op(self, index: int) -> Result<Machine, Seq<char>> {
        let slot = self.frame().base_pointer + index;
        if self.sp < 1 {
            Err("stack underflow"@)
        } else if slot >= STACK_SIZE {
            Err("local index out of range"@)
        } else {
            Ok(
                Machine {
                    stack: self.stack.update(slot, self.peek(0)).update(self.sp - 1, Value::Null),
                    sp: self.sp - 1,
                    ..self
                },
            )
        }
    }

    /// `OpGetLocal index`.
    pub open spec fn get_local_op(self, index: int) -> Result<Machine, Seq<char>> {
        let slot = self.frame().base_pointer + index;
        if slot >= STACK_SIZE {
            Err("local index out of range"@)
        } else {
            self.push(self.stack[slot])
        }
    }

    /// `OpGetBuiltin index`.
    pub open spec fn get_builtin_op(self, index: int) -> Result<Machine, Seq<char>> {
        match Builtin::at(index as nat) {
            Some(builtin) => self.push(Value::BuiltInFunction(builtin)),
            None => Err("builtin not found: "@ + decimal(index as nat)),
        }
    }

    /// `OpGetFree index`.
    pub open spec fn get_free_op(self, index: int) -> Result<Machine, Seq<char>> {
        if index >= self.frame().free.len() {
            Err("free variable index out of range"@)
        } else {
            self.push(self.frame().free[index])
        }
    }

    /// `OpCurrentClosure`.
    pub open spec fn current_closure_op(self) -> Result<Machine, Seq<char>> {
        self.push(Value::Closure(self.frame().func, self.frame().free))
    }

    /// `OpClosure index n`: the compiled function at `index` of the
    /// constants and the top `n` values of the stack become one closure,
    /// which holds exactly those `n` values, the lowest first.
    pub open spec fn closure_op(self, index: int, n: int) -> Result<Machine, Seq<char>> {
        if index >= self.constants.len() {
            Err("constant index out of range"@)
        } else {
            match self.constants[index] {
                Value::CompiledFunction(func) => if self.sp < n {
                    Err("stack underflow"@)
                } else {
                    self.drop(n).push(Value::Closure(func, self.top(n)))
                },
                other => Err("not a function: "@ + other.kind_name()),
            }
        }
    }

    /// `OpJumpNotTruthy target`, met at offset `ip`.
    pub open spec fn jump_not_truthy_op(self, ip: int, target: int) -> Result<Machine, Seq<char>> {
        if self.sp < 1 {
            Err("stack underflow"@)
        } else if self.peek(0).is_truthy() {
            Ok(self.drop(1).jump(ip + 3))
        } else {
            Ok(self.drop(1).jump(target))
        }
    }

    /// The end of a call: the running frame is closed, the stack is cut
    /// back to below the callee, and `value` is pushed for the caller.
    pub open spec fn leave(self, value: Value) -> Result<Machine, Seq<char>> {
        if self.frames.len() < 2 {
            Err("frame underflow"@)
        } else if self.frame().base_pointer < 1 {
            Err("stack underflow"@)
        } else {
            (Machine {
                sp: self.frame().base_pointer - 1,
                frames: self.frames.drop_last(),
                ..self
            }).push(value)
        }
    }

    /// `OpReturnValue`.
    pub open spec fn return_value_op(self) -> Result<Machine, Seq<char>> {
        if self.sp < 1 {
            Err("stack underflow"@)
        } else {
            self.drop(1).leave(self.peek(0))
        }
    }

    /// A call of a closure with `n` arguments on the stack, from the
    /// instruction at `ip`: a new frame is opened whose locals start at the
    /// first argument, with room for all its locals. The caller goes on
    /// after the call instruction once the frame is closed.
    pub open spec fn call_closure(self, func: FunctionView, free: Seq<Value>, n: int, ip: int)
        -> Result<Machine, Seq<char>> {
        if n != func.num_parameters {
            Err(wrong_arguments_text(func.num_parameters as nat, n as nat))
        } else if self.sp - n + func.num_locals > STACK_SIZE {
            Err("stack overflow"@)
        } else if self.frames.len() >= MAX_FRAMES {
            Err("frame overflow"@)
        } else {
            Ok(
                Machine {
                    sp: self.sp - n + func.num_locals,
                    frames: self.jump(ip + 2).frames.push(
                        FrameView { func, free, ip: 0, base_pointer: self.sp - n },
                    ),
                    ..self
                },
            )
        }
    }

    /// A call of a built-in function with `n` arguments on the stack, from
    /// the instruction at `ip`: the callee and the arguments give way to
    /// the result.
    pub open spec fn call_builtin(self, builtin: Builtin, n: int, ip: int) -> Result<
        Machine,
        Seq<char>,
    > {
        match builtin.apply(self.top(n)) {
            Err(e) => Err(e),
            Ok(value) => match (Machine {
                sp: self.sp - n - 1,
                output: self.output + builtin.prints(self.top(n)),
                ..self
            }).push(value) {
                Ok(m) => Ok(m.jump(ip + 2)),
                Err(e) => Err(e),
            },
        }
    }

    /// `OpCall n`, met at offset `ip`.
    pub open spec fn call_op(self, n: int, ip: int) -> Result<Machine, Seq<char>> {
        if self.sp < n + 1 {
            Err("stack underflow"@)
        } else {
            match self.peek(n) {
                Value::Closure(func, free) => self.call_closure(func, free, n, ip),
                Value::BuiltInFunction(builtin) => self.call_builtin(builtin, n, ip),
                _ => Err("calling non-closure and non-builtin"@),
            }
        }
    }

    /// Goes on at `ip` after an instruction that did not fail.
    pub open spec fn and_jump(r: Result<Machine, Seq<char>>, ip: int) -> Result<Machine, Seq<char>> {
        match r {
            Ok(m) => Ok(m.jump(ip)),
            Err(e) => Err(e),
        }
    }

    /// What an instruction without operands does to the stack. The
    /// instructions that end a call are not among these.
    pub open spec fn operate_plain(self, op: Opcode) -> Result<Machine, Seq<char>> {
        match op {
            Opcode::OpPop => self.pop_op(),
            Opcode::OpAdd | Opcode::OpSub | Opcode::OpMul | Opcode::OpDiv => self.binary_op(op),
            Opcode::OpTrue => self.push(Value::Boolean(true)),
            Opcode::OpFalse => self.push(Value::Boolean(false)),
            Opcode::OpNull => self.push(Value::Null),
            Opcode::OpEqual | Opcode::OpNotEqual | Opcode::OpGreaterThan => self.comparison_op(op),
            Opcode::OpBang => self.bang_op(),
            Opcode::OpMinus => self.minus_op(),
            Opcode::OpIndex => self.index_op(),
            Opcode::OpSliceIndex => self.slice_op(),
            Opcode::OpCurrentClosure => self.current_closure_op(),
            _ => Ok(self),
        }
    }

    /// What an instruction with operands does to the stack and the
    /// globals: `first` is its first operand, `second` the second of
    /// `OpClosure`. Jumps and calls are not among these.
    pub open spec fn operate_with(self, op: Opcode, first: int, second: int) -> Result<
        Machine,
        Seq<char>,
    > {
        match op {
            Opcode::OpConstant => self.constant_op(first),
            Opcode::OpSetGlobal => self.set_global_op(first),
            Opcode::OpGetGlobal => self.push(self.globals[first]),
            Opcode::OpArray => self.array_op(first),
            Opcode::OpHash => self.hash_op(first),
            Opcode::OpSetLocal => self.set_local_op(first),
            Opcode::OpGetLocal => self.get_local_op(first),
            Opcode::OpGetBuiltin => self.get_builtin_op(first),
            Opcode::OpClosure => self.closure_op(first, second),
            Opcode::OpGetFree => self.get_free_op(first),
            _ => Ok(self),
        }
    }

    /// The first operand of the instruction `op` at offset `ip`: two bytes
    /// big-endian or one byte, as the opcode has it.
    pub open spec fn first_operand(self, op: Opcode, ip: int) -> int {
        if op.length() == 2 {
            self.code()[ip + 1] as int
        } else {
            u16_of(self.code()[ip + 1], self.code()[ip + 2]) as int
        }
    }

    /// The instruction `op` at offset `ip` of the running frame, all of
    /// whose bytes lie within the frame's instructions. A jump sets the
    /// offset, a call opens a frame, a return closes one; every other
    /// instruction works on the stack and goes on behind itself.
    pub open spec fn execute(self, op: Opcode, ip: int) -> Result<Machine, Seq<char>> {
        let first = self.first_operand(op, ip);
        match op {
            Opcode::OpJump => Ok(self.jump(first)),
            Opcode::OpJumpNotTruthy => self.jump_not_truthy_op(ip, first),
            Opcode::OpCall => self.call_op(first, ip),
            Opcode::OpReturnValue => self.return_value_op(),
            Opcode::OpReturn => self.leave(Value::Null),
            _ => if op.length() == 1 {
                Self::and_jump(self.operate_plain(op), ip + 1)
            } else {
                Self::and_jump(
                    self.operate_with(op, first, self.code()[ip + 3] as int),
                    ip + op.length(),
                )
            },
        }
    }

    /// A closure that `OpClosure` builds holds as many values as the
    /// instruction's second operand says, and lies on top of the stack.
    pub proof fn lemma_closure_captures(self, index: int, n: int)
        requires
            self.wf(),
            0 <= n,
            self.closure_op(index, n) is Ok,
        ensures
            self.closure_op(index, n)->Ok_0.peek(0) matches Value::Closure(_, free) && free.len()
                == n,
    {
    }

    /// An instruction that works on the stack leaves the frames alone.
    pub proof fn lemma_operate_keeps_frames(self, op: Opcode, first: int, second: int)
        ensures
            self.operate_plain(op) matches Ok(m) ==> m.frames == self.frames,
            self.operate_with(op, first, second) matches Ok(m) ==> m.frames == self.frames,
    {
    }

    /// Whether the machine has nothing left to run: no frame is open, or
    /// the running frame is past its last instruction.
    pub open spec fn halted(self) -> bool {
        self.frames.len() == 0 || self.frame().ip >= self.code().len()
    }

    /// One instruction of a machine that has not halted: the instruction
    /// at the running frame's offset is decoded and executed.
    pub open spec fn step(self) -> Result<Machine, Seq<char>> {
        let ip = self.frame().ip;
        match Opcode::of_byte(self.code()[ip]) {
            None => Err(invalid_opcode_text(self.code()[ip])),
            Some(op) => if ip + op.length() > self.code().len() {
                Err("truncated instruction"@)
            } else {
                self.execute(op, ip)
            },
        }
    }

    /// The machine run until it halts or fails, for at most `fuel`
    /// instructions.
    pub open spec fn run(self, fuel: nat) -> Result<Machine, Seq<char>>
        decreases fuel,
    {
        if self.halted() {
            Ok(self)
        } else if fuel == 0 {
            Err("step limit exceeded"@)
        } else {
            match self.step() {
                Ok(next) => next.run((fuel - 1) as nat),
                Err(e) => Err(e),
            }
        }
    }
}

} // verus!
