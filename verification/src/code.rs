//! The instruction set: opcodes, their operand layout, the encoder and the
//! disassembler.
//!
//! An instruction is one opcode byte followed by its operands, each written
//! big-endian in the width that the opcode's definition declares.

use crate::text::{decimal, padded_decimal, push_decimal, push_padded_decimal, push_str};
use vstd::prelude::*;

verus! {

pub type Instructions = Vec<u8>;

#[derive(Debug, PartialEq, Eq, Clone, Copy, Structural)]
pub enum Opcode {
    OpConstant,
    OpPop,
    OpAdd,
    OpSub,
    OpMul,
    OpDiv,
    OpTrue,
    OpFalse,
    OpEqual,
    OpNotEqual,
    OpGreaterThan,
    OpMinus,
    OpBang,
    OpJumpNotTruthy,
    OpJump,
    OpNull,
    OpGetGlobal,
    OpSetGlobal,
    OpArray,
    OpHash,
    OpIndex,
    OpSliceIndex,
    OpCall,
    OpReturnValue,
    OpReturn,
    OpGetLocal,
    OpSetLocal,
    OpGetBuiltin,
    OpClosure,
    OpGetFree,
    OpCurrentClosure,
}

/// Name and operand widths of one opcode.
pub struct Definition {
    pub name: &'static str,
    pub operand_widths: Vec<usize>,
}

impl Definition {
    /// Every operand is one or two bytes wide.
    pub open spec fn wf(&self) -> bool {
        forall|i: int|
            0 <= i < self.operand_widths.len() ==> (#[trigger] self.operand_widths[i] == 1
                || self.operand_widths[i] == 2)
    }
}

/// Sum of the operand widths from index `i` on.
pub open spec fn widths_total(widths: Seq<usize>, i: int) -> nat
    decreases widths.len() - i,
{
    if 0 <= i < widths.len() {
        widths[i] as nat + widths_total(widths, i + 1)
    } else {
        0
    }
}

/// The value of two bytes read big-endian.
pub open spec fn u16_of(hi: u8, lo: u8) -> u16 {
    (hi as int * 256 + lo as int) as u16
}

/// One operand written big-endian in `width` bytes; the value is cut to the
/// width's range.
pub open spec fn encode_operand(value: u64, width: usize) -> Seq<u8> {
    if width == 2 {
        seq![((value as int / 256) % 256) as u8, (value as int % 256) as u8]
    } else {
        seq![(value as int % 256) as u8]
    }
}

/// The operand bytes for the widths from index `i` on. An operand that is
/// missing is written as zero bytes.
pub open spec fn encode_operands(widths: Seq<usize>, operands: Seq<u64>, i: int) -> Seq<u8>
    decreases widths.len() - i,
{
    if 0 <= i < widths.len() {
        encode_operand(
            if i < operands.len() {
                operands[i]
            } else {
                0
            },
            widths[i],
        ) + encode_operands(widths, operands, i + 1)
    } else {
        Seq::empty()
    }
}

/// The operand of width `width` that starts at `bytes[at]`.
pub open spec fn decode_operand(bytes: Seq<u8>, at: int, width: usize) -> u64 {
    if width == 2 {
        u16_of(bytes[at], bytes[at + 1]) as u64
    } else {
        bytes[at] as u64
    }
}

/// The operands for the widths from index `i` on, read from `bytes[at..]`.
pub open spec fn decode_operands(widths: Seq<usize>, bytes: Seq<u8>, i: int, at: int) -> Seq<u64>
    decreases widths.len() - i,
{
    if 0 <= i < widths.len() {
        seq![decode_operand(bytes, at, widths[i])] + decode_operands(
            widths,
            bytes,
            i + 1,
            at + widths[i],
        )
    } else {
        Seq::empty()
    }
}

impl Opcode {
    /// The byte that stands for this opcode.
    pub open spec fn byte(self) -> u8 {
        match self {
            Opcode::OpConstant => 0,
            Opcode::OpPop => 1,
            Opcode::OpAdd => 2,
            Opcode::OpSub => 3,
            Opcode::OpMul => 4,
            Opcode::OpDiv => 5,
            Opcode::OpTrue => 6,
            Opcode::OpFalse => 7,
            Opcode::OpEqual => 8,
            Opcode::OpNotEqual => 9,
            Opcode::OpGreaterThan => 10,
            Opcode::OpMinus => 11,
            Opcode::OpBang => 12,
            Opcode::OpJumpNotTruthy => 13,
            Opcode::OpJump => 14,
            Opcode::OpNull => 15,
            Opcode::OpGetGlobal => 16,
            Opcode::OpSetGlobal => 17,
            Opcode::OpArray => 18,
            Opcode::OpHash => 19,
            Opcode::OpIndex => 20,
            Opcode::OpSliceIndex => 21,
            Opcode::OpCall => 22,
            Opcode::OpReturnValue => 23,
            Opcode::OpReturn => 24,
            Opcode::OpGetLocal => 25,
            Opcode::OpSetLocal => 26,
            Opcode::OpGetBuiltin => 27,
            Opcode::OpClosure => 28,
            Opcode::OpGetFree => 29,
            Opcode::OpCurrentClosure => 30,
        }
    }

    /// The opcode that a byte stands for, if any.
    pub open spec fn of_byte(b: u8) -> Option<Opcode> {
        if b == 0 {
            Some(Opcode::OpConstant)
        } else if b == 1 {
            Some(Opcode::OpPop)
        } else if b == 2 {
            Some(Opcode::OpAdd)
        } else if b == 3 {
            Some(Opcode::OpSub)
        } else if b == 4 {
            Some(Opcode::OpMul)
        } else if b == 5 {
            Some(Opcode::OpDiv)
        } else if b == 6 {
            Some(Opcode::OpTrue)
        } else if b == 7 {
            Some(Opcode::OpFalse)
        } else if b == 8 {
            Some(Opcode::OpEqual)
        } else if b == 9 {
            Some(Opcode::OpNotEqual)
        } else if b == 10 {
            Some(Opcode::OpGreaterThan)
        } else if b == 11 {
            Some(Opcode::OpMinus)
        } else if b == 12 {
            Some(Opcode::OpBang)
        } else if b == 13 {
            Some(Opcode::OpJumpNotTruthy)
        } else if b == 14 {
            Some(Opcode::OpJump)
        } else if b == 15 {
            Some(Opcode::OpNull)
        } else if b == 16 {
            Some(Opcode::OpGetGlobal)
        } else if b == 17 {
            Some(Opcode::OpSetGlobal)
        } else if b == 18 {
            Some(Opcode::OpArray)
        } else if b == 19 {
            Some(Opcode::OpHash)
        } else if b == 20 {
            Some(Opcode::OpIndex)
        } else if b == 21 {
            Some(Opcode::OpSliceIndex)
        } else if b == 22 {
            Some(Opcode::OpCall)
        } else if b == 23 {
            Some(Opcode::OpReturnValue)
        } else if b == 24 {
            Some(Opcode::OpReturn)
        } else if b == 25 {
            Some(Opcode::OpGetLocal)
        } else if b == 26 {
            Some(Opcode::OpSetLocal)
        } else if b == 27 {
            Some(Opcode::OpGetBuiltin)
        } else if b == 28 {
            Some(Opcode::OpClosure)
        } else if b == 29 {
            Some(Opcode::OpGetFree)
        } else if b == 30 {
            Some(Opcode::OpCurrentClosure)
        } else {
            None
        }
    }

    /// The opcode's name as the disassembler prints it.
    pub open spec fn name(self) -> Seq<char> {
        match self {
            Opcode::OpConstant => "OpConstant"@,
            Opcode::OpPop => "OpPop"@,
            Opcode::OpAdd => "OpAdd"@,
            Opcode::OpSub => "OpSub"@,
            Opcode::OpMul => "OpMul"@,
            Opcode::OpDiv => "OpDiv"@,
            Opcode::OpTrue => "OpTrue"@,
            Opcode::OpFalse => "OpFalse"@,
            Opcode::OpEqual => "OpEqual"@,
            Opcode::OpNotEqual => "OpNotEqual"@,
            Opcode::OpGreaterThan => "OpGreaterThan"@,
            Opcode::OpMinus => "OpMinus"@,
            Opcode::OpBang => "OpBang"@,
            Opcode::OpJumpNotTruthy => "OpJumpNotTruthy"@,
            Opcode::OpJump => "OpJump"@,
            Opcode::OpNull => "OpNull"@,
            Opcode::OpGetGlobal => "OpGetGlobal"@,
            Opcode::OpSetGlobal => "OpSetGlobal"@,
            Opcode::OpArray => "OpArray"@,
            Opcode::OpHash => "OpHash"@,
            Opcode::OpIndex => "OpIndex"@,
            Opcode::OpSliceIndex => "OpSliceIndex"@,
            Opcode::OpCall => "OpCall"@,
            Opcode::OpReturnValue => "OpReturnValue"@,
            Opcode::OpReturn => "OpReturn"@,
            Opcode::OpGetLocal => "OpGetLocal"@,
            Opcode::OpSetLocal => "OpSetLocal"@,
            Opcode::OpGetBuiltin => "OpGetBuiltin"@,
            Opcode::OpClosure => "OpClosure"@,
            Opcode::OpGetFree => "OpGetFree"@,
            Opcode::OpCurrentClosure => "OpCurrentClosure"@,
        }
    }

    /// The widths in bytes of the opcode's operands, in order.
    pub open spec fn widths(self) -> Seq<usize> {
        match self {
            Opcode::OpConstant
            | Opcode::OpJumpNotTruthy
            | Opcode::OpJump
            | Opcode::OpGetGlobal
            | Opcode::OpSetGlobal
            | Opcode::OpArray
            | Opcode::OpHash => seq![2usize],
            Opcode::OpCall
            | Opcode::OpGetLocal
            | Opcode::OpSetLocal
            | Opcode::OpGetBuiltin
            | Opcode::OpGetFree => seq![1usize],
            Opcode::OpClosure => seq![2usize, 1usize],
            _ => Seq::empty(),
        }
    }

    /// Length in bytes of an instruction with this opcode.
    pub open spec fn length(self) -> nat {
        match self {
            Opcode::OpConstant
            | Opcode::OpJumpNotTruthy
            | Opcode::OpJump
            | Opcode::OpGetGlobal
            | Opcode::OpSetGlobal
            | Opcode::OpArray
            | Opcode::OpHash => 3,
            Opcode::OpCall
            | Opcode::OpGetLocal
            | Opcode::OpSetLocal
            | Opcode::OpGetBuiltin
            | Opcode::OpGetFree => 2,
            Opcode::OpClosure => 4,
            _ => 1,
        }
    }

    /// The length of an instruction is one byte more than its operands take.
    pub proof fn lemma_length(self)
        ensures
            self.length() == 1 + widths_total(self.widths(), 0),
            self.widths().len() <= 2,
            forall|i: int|
                0 <= i < self.widths().len() ==> (#[trigger] self.widths()[i] == 1
                    || self.widths()[i] == 2),
    {
        let w = self.widths();
        reveal_with_fuel(widths_total, 4);
        assert(widths_total(w, 0) + 1 == self.length());
    }

    /// `of_byte` undoes `byte`.
    pub proof fn lemma_byte_round_trip(self)
        ensures
            Opcode::of_byte(self.byte()) == Some(self),
    {
    }

    /// A byte that stands for an opcode is that opcode's byte.
    pub proof fn lemma_of_byte_inverse(b: u8)
        ensures
            Opcode::of_byte(b) matches Some(op) ==> op.byte() == b,
            Opcode::of_byte(b) is Some <==> b <= 30,
    {
    }

    pub fn to_byte(self) -> (b: u8)
        ensures
            b == self.byte(),
    {
        match self {
            Opcode::OpConstant => 0,
            Opcode::OpPop => 1,
            Opcode::OpAdd => 2,
            Opcode::OpSub => 3,
            Opcode::OpMul => 4,
            Opcode::OpDiv => 5,
            Opcode::OpTrue => 6,
            Opcode::OpFalse => 7,
            Opcode::OpEqual => 8,
            Opcode::OpNotEqual => 9,
            Opcode::OpGreaterThan => 10,
            Opcode::OpMinus => 11,
            Opcode::OpBang => 12,
            Opcode::OpJumpNotTruthy => 13,
            Opcode::OpJump => 14,
            Opcode::OpNull => 15,
            Opcode::OpGetGlobal => 16,
            Opcode::OpSetGlobal => 17,
            Opcode::OpArray => 18,
            Opcode::OpHash => 19,
            Opcode::OpIndex => 20,
            Opcode::OpSliceIndex => 21,
            Opcode::OpCall => 22,
            Opcode::OpReturnValue => 23,
            Opcode::OpReturn => 24,
            Opcode::OpGetLocal => 25,
            Opcode::OpSetLocal => 26,
            Opcode::OpGetBuiltin => 27,
            Opcode::OpClosure => 28,
            Opcode::OpGetFree => 29,
            Opcode::OpCurrentClosure => 30,
        }
    }

    /// Length in bytes of an instruction with this opcode.
    pub fn instruction_len(self) -> (n: usize)
        ensures
            n == self.length(),
            1 <= n <= 4,
    {
        match self {
            Opcode::OpConstant
            | Opcode::OpJumpNotTruthy
            | Opcode::OpJump
            | Opcode::OpGetGlobal
            | Opcode::OpSetGlobal
            | Opcode::OpArray
            | Opcode::OpHash => 3,
            Opcode::OpCall
            | Opcode::OpGetLocal
            | Opcode::OpSetLocal
            | Opcode::OpGetBuiltin
            | Opcode::OpGetFree => 2,
            Opcode::OpClosure => 4,
            _ => 1,
        }
    }

    /// The opcode that `value` stands for; `None` for a byte that is no
    /// opcode.
    pub fn from_byte(value: u8) -> (r: Option<Opcode>)
        ensures
            r == Opcode::of_byte(value),
    {
        match value {
            0 => Some(Opcode::OpConstant),
            1 => Some(Opcode::OpPop),
            2 => Some(Opcode::OpAdd),
            3 => Some(Opcode::OpSub),
            4 => Some(Opcode::OpMul),
            5 => Some(Opcode::OpDiv),
            6 => Some(Opcode::OpTrue),
            7 => Some(Opcode::OpFalse),
            8 => Some(Opcode::OpEqual),
            9 => Some(Opcode::OpNotEqual),
            10 => Some(Opcode::OpGreaterThan),
            11 => Some(Opcode::OpMinus),
            12 => Some(Opcode::OpBang),
            13 => Some(Opcode::OpJumpNotTruthy),
            14 => Some(Opcode::OpJump),
            15 => Some(Opcode::OpNull),
            16 => Some(Opcode::OpGetGlobal),
            17 => Some(Opcode::OpSetGlobal),
            18 => Some(Opcode::OpArray),
            19 => Some(Opcode::OpHash),
            20 => Some(Opcode::OpIndex),
            21 => Some(Opcode::OpSliceIndex),
            22 => Some(Opcode::OpCall),
            23 => Some(Opcode::OpReturnValue),
            24 => Some(Opcode::OpReturn),
            25 => Some(Opcode::OpGetLocal),
            26 => Some(Opcode::OpSetLocal),
            27 => Some(Opcode::OpGetBuiltin),
            28 => Some(Opcode::OpClosure),
            29 => Some(Opcode::OpGetFree),
            30 => Some(Opcode::OpCurrentClosure),
            _ => None,
        }
    }

    /// The opcode that `value` stands for, or the message
    /// `Invalid opcode: ` followed by the byte in decimal.
    pub fn try_from(value: u8) -> (r: Result<Opcode, String>)
        ensures
            match r {
                Ok(op) => Opcode::of_byte(value) == Some(op),
                Err(message) => Opcode::of_byte(value) is None && message@ == invalid_opcode_text(
                    value,
                ),
            },
    {
        match Opcode::from_byte(value) {
            Some(op) => Ok(op),
            None => {
                let mut message = String::new();
                push_str(&mut message, "Invalid opcode: ");
                push_decimal(&mut message, value as u64);
                assert(message@ =~= invalid_opcode_text(value));
                Err(message)
            },
        }
    }

    /// The opcode's printed name.
    pub fn name_str(self) -> (s: &'static str)
        ensures
            s@ == self.name(),
    {
        match self {
            Opcode::OpConstant => "OpConstant",
            Opcode::OpPop => "OpPop",
            Opcode::OpAdd => "OpAdd",
            Opcode::OpSub => "OpSub",
            Opcode::OpMul => "OpMul",
            Opcode::OpDiv => "OpDiv",
            Opcode::OpTrue => "OpTrue",
            Opcode::OpFalse => "OpFalse",
            Opcode::OpEqual => "OpEqual",
            Opcode::OpNotEqual => "OpNotEqual",
            Opcode::OpGreaterThan => "OpGreaterThan",
            Opcode::OpMinus => "OpMinus",
            Opcode::OpBang => "OpBang",
            Opcode::OpJumpNotTruthy => "OpJumpNotTruthy",
            Opcode::OpJump => "OpJump",
            Opcode::OpNull => "OpNull",
            Opcode::OpGetGlobal => "OpGetGlobal",
            Opcode::OpSetGlobal => "OpSetGlobal",
            Opcode::OpArray => "OpArray",
            Opcode::OpHash => "OpHash",
            Opcode::OpIndex => "OpIndex",
            Opcode::OpSliceIndex => "OpSliceIndex",
            Opcode::OpCall => "OpCall",
            Opcode::OpReturnValue => "OpReturnValue",
            Opcode::OpReturn => "OpReturn",
            Opcode::OpGetLocal => "OpGetLocal",
            Opcode::OpSetLocal => "OpSetLocal",
            Opcode::OpGetBuiltin => "OpGetBuiltin",
            Opcode::OpClosure => "OpClosure",
            Opcode::OpGetFree => "OpGetFree",
            Opcode::OpCurrentClosure => "OpCurrentClosure",
        }
    }

    /// The opcode's name as a string.
    pub fn to_string(&self) -> (s: String)
        ensures
            s@ == self.name(),
    {
        String::from_str(self.name_str())
    }

    /// The opcode's definition: its name and the widths of its operands.
    pub fn lookup(&self) -> (def: Definition)
        ensures
            def.wf(),
            def.name@ == self.name(),
            def.operand_widths@ == self.widths(),
    {
        let name = self.name_str();
        let mut operand_widths: Vec<usize> = Vec::new();
        match self {
            Opcode::OpConstant
            | Opcode::OpJumpNotTruthy
            | Opcode::OpJump
            | Opcode::OpGetGlobal
            | Opcode::OpSetGlobal
            | Opcode::OpArray
            | Opcode::OpHash => {
                operand_widths.push(2);
            },
            Opcode::OpCall
            | Opcode::OpGetLocal
            | Opcode::OpSetLocal
            | Opcode::OpGetBuiltin
            | Opcode::OpGetFree => {
                operand_widths.push(1);
            },
            Opcode::OpClosure => {
                operand_widths.push(2);
                operand_widths.push(1);
            },
            _ => {},
        }
        assert(operand_widths@ =~= self.widths());
        Definition { name, operand_widths }
    }
}

/// The message for a byte that is no opcode.
pub open spec fn invalid_opcode_text(value: u8) -> Seq<char> {
    "Invalid opcode: "@ + decimal(value as nat)
}

/// The bytes of the instruction `op operands…`.
pub open spec fn make_spec(op: Opcode, operands: Seq<u64>) -> Seq<u8> {
    seq![op.byte()] + encode_operands(op.widths(), operands, 0)
}

/// Appends one operand to `out`, big-endian in `width` bytes.
fn push_operand(out: &mut Vec<u8>, value: u64, width: usize)
    requires
        width == 1 || width == 2,
    ensures
        final(out)@ == old(out)@ + encode_operand(value, width),
{
    if width == 2 {
        let hi = ((value >> 8) & 0xff) as u8;
        let lo = (value & 0xff) as u8;
        assert(((value >> 8) & 0xff) == (value / 256) % 256) by (bit_vector);
        assert((value & 0xff) == value % 256) by (bit_vector);
        out.push(hi);
        out.push(lo);
        assert(out@ =~= old(out)@ + encode_operand(value, width));
    } else {
        let lo = (value & 0xff) as u8;
        assert((value & 0xff) == value % 256) by (bit_vector);
        out.push(lo);
        assert(out@ =~= old(out)@ + encode_operand(value, width));
    }
}

/// Encodes one instruction. Operands beyond those given are written as
/// zero; an operand too large for its width loses its high bits.
pub fn make(op: Opcode, operands: Vec<u64>) -> (instruction: Instructions)
    requires
        operands.len() <= op.widths().len(),
    ensures
        instruction@ == make_spec(op, operands@),
        instruction.len() == op.length(),
{
    let def = op.lookup();
    let mut instruction: Vec<u8> = Vec::new();
    instruction.push(op.to_byte());
    let mut i: usize = 0;
    let ghost widths = op.widths();
    proof {
        op.lemma_length();
    }
    while i < def.operand_widths.len()
        invariant
            def.wf(),
            def.operand_widths@ == widths,
            i <= widths.len(),
            instruction@ + encode_operands(widths, operands@, i as int) == make_spec(
                op,
                operands@,
            ),
            widths == op.widths(),
            instruction.len() + widths_total(widths, i as int) == op.length(),
        decreases widths.len() - i,
    {
        let width = def.operand_widths[i];
        let value = if i < operands.len() {
            operands[i]
        } else {
            0
        };
        let ghost before = instruction@;
        push_operand(&mut instruction, value, width);
        assert(before + encode_operands(widths, operands@, i as int) =~= instruction@
            + encode_operands(widths, operands@, i + 1));
        i += 1;
    }
    assert(instruction@ + encode_operands(widths, operands@, i as int) =~= instruction@);
    instruction
}

/// Reads two bytes big-endian.
pub fn read_u16(instructions: &[u8]) -> (value: u16)
    requires
        instructions.len() >= 2,
    ensures
        value == u16_of(instructions[0], instructions[1]),
{
    let hi = instructions[0];
    let lo = instructions[1];
    assert(((hi as u16) << 8 | (lo as u16)) == (hi as u16) * 256 + (lo as u16)) by (bit_vector);
    (hi as u16) << 8 | (lo as u16)
}

/// Decodes the operands that `def` declares from the start of
/// `instructions`, and says how many bytes they took.
pub fn read_operands(def: &Definition, instructions: &[u8]) -> (r: (Vec<u64>, usize))
    requires
        def.wf(),
        instructions.len() >= widths_total(def.operand_widths@, 0),
    ensures
        r.0@ == decode_operands(def.operand_widths@, instructions@, 0, 0),
        r.0.len() == def.operand_widths.len(),
        r.1 == widths_total(def.operand_widths@, 0),
{
    let mut operands: Vec<u64> = Vec::new();
    let mut offset: usize = 0;
    let mut i: usize = 0;
    let ghost widths = def.operand_widths@;
    while i < def.operand_widths.len()
        invariant
            def.wf(),
            widths == def.operand_widths@,
            i <= widths.len(),
            operands.len() == i,
            offset + widths_total(widths, i as int) == widths_total(widths, 0),
            instructions.len() >= widths_total(widths, 0),
            operands@ + decode_operands(widths, instructions@, i as int, offset as int)
                == decode_operands(widths, instructions@, 0, 0),
        decreases widths.len() - i,
    {
        let width = def.operand_widths[i];
        let ghost before = operands@;
        if width == 2 {
            let hi = instructions[offset];
            let lo = instructions[offset + 1];
            assert(((hi as u16) << 8 | (lo as u16)) == (hi as u16) * 256 + (lo as u16))
                by (bit_vector);
            let value = (hi as u16) << 8 | (lo as u16);
            operands.push(value as u64);
        } else {
            operands.push(instructions[offset] as u64);
        }
        assert(before + decode_operands(widths, instructions@, i as int, offset as int)
            =~= operands@ + decode_operands(
            widths,
            instructions@,
            i + 1,
            offset + width,
        ));
        offset += width;
        i += 1;
    }
    assert(operands@ + decode_operands(widths, instructions@, i as int, offset as int)
        =~= operands@);
    (operands, offset)
}

/// The text of one instruction: its name and its operands in decimal.
pub open spec fn format_spec(name: Seq<char>, width_count: nat, operands: Seq<u64>) -> Seq<char> {
    if operands.len() != width_count {
        "ERROR: operand len "@ + decimal(operands.len()) + " does not match defined "@ + decimal(
            width_count,
        ) + "\n"@
    } else if width_count == 0 {
        name
    } else if width_count == 1 {
        name + " "@ + decimal(operands[0] as nat)
    } else if width_count == 2 {
        name + " "@ + decimal(operands[0] as nat) + " "@ + decimal(operands[1] as nat)
    } else {
        "ERROR: unhandled operand_count for "@ + name + "\n"@
    }
}

/// Renders one instruction from its definition and its decoded operands.
pub fn format_instruction(def: &Definition, operands: Vec<u64>) -> (s: String)
    ensures
        s@ == format_spec(def.name@, def.operand_widths.len() as nat, operands@),
{
    let operand_count = def.operand_widths.len();
    let mut out = String::new();
    if operands.len() != operand_count {
        push_str(&mut out, "ERROR: operand len ");
        push_decimal(&mut out, operands.len() as u64);
        push_str(&mut out, " does not match defined ");
        push_decimal(&mut out, operand_count as u64);
        push_str(&mut out, "\n");
    } else if operand_count == 0 {
        push_str(&mut out, def.name);
    } else if operand_count == 1 {
        push_str(&mut out, def.name);
        push_str(&mut out, " ");
        push_decimal(&mut out, operands[0]);
    } else if operand_count == 2 {
        push_str(&mut out, def.name);
        push_str(&mut out, " ");
        push_decimal(&mut out, operands[0]);
        push_str(&mut out, " ");
        push_decimal(&mut out, operands[1]);
    } else {
        push_str(&mut out, "ERROR: unhandled operand_count for ");
        push_str(&mut out, def.name);
        push_str(&mut out, "\n");
    }
    assert(out@ =~= format_spec(def.name@, def.operand_widths.len() as nat, operands@));
    out
}

/// The disassembler's line for the instruction at offset `at`:
/// `OFFSET NAME OPERAND…`. A byte that is no opcode gives an error line, and
/// so does an instruction whose operands are cut off.
pub open spec fn line_at(code: Seq<u8>, at: int) -> Seq<char>
    recommends
        0 <= at < code.len(),
{
    match Opcode::of_byte(code[at]) {
        None => "ERROR: "@ + invalid_opcode_text(code[at]) + "\n"@,
        Some(op) => {
            if at + op.length() > code.len() {
                "ERROR: truncated instruction "@ + op.name() + "\n"@
            } else {
                padded_decimal(at as nat) + " "@ + format_spec(
                    op.name(),
                    op.widths().len(),
                    decode_operands(op.widths(), code, 0, at + 1),
                ) + "\n"@
            }
        },
    }
}

/// The offset at which the disassembler goes on after the line at `at`: past
/// the instruction, past a byte that is no opcode, or to the end after an
/// instruction that is cut off.
pub open spec fn next_at(code: Seq<u8>, at: int) -> int
    recommends
        0 <= at < code.len(),
{
    match Opcode::of_byte(code[at]) {
        None => at + 1,
        Some(op) => {
            if at + op.length() > code.len() {
                code.len() as int
            } else {
                at + op.length()
            }
        },
    }
}

/// The disassembly of `code` from offset `at` on, line after line.
pub open spec fn disassemble(code: Seq<u8>, at: int) -> Seq<char>
    decreases code.len() - at,
{
    if 0 <= at < code.len() {
        line_at(code, at) + disassemble(code, next_at(code, at))
    } else {
        Seq::empty()
    }
}

/// Decoding does not depend on where the operand bytes sit in a longer
/// sequence.
proof fn lemma_decode_shift(widths: Seq<usize>, code: Seq<u8>, i: int, at: int, base: int)
    requires
        0 <= i,
        0 <= base,
        0 <= at,
        base + at + widths_total(widths, i) <= code.len(),
        forall|j: int| 0 <= j < widths.len() ==> #[trigger] widths[j] >= 1,
    ensures
        decode_operands(widths, code.subrange(base, code.len() as int), i, at) == decode_operands(
            widths,
            code,
            i,
            base + at,
        ),
    decreases widths.len() - i,
{
    if i < widths.len() {
        lemma_decode_shift(widths, code, i + 1, at + widths[i], base);
        let tail = code.subrange(base, code.len() as int);
        assert(widths[i] == 2 ==> tail[at] == code[base + at] && tail[at + 1] == code[base + at
            + 1]);
        assert(widths[i] >= 1);
        assert(tail[at] == code[base + at]);
    }
}

/// Appends the disassembler's line for the instruction at `at` and returns
/// the offset of the next one.
fn write_line(out: &mut String, instructions: &Instructions, at: usize) -> (next: usize)
    requires
        at < instructions.len(),
    ensures
        final(out)@ == old(out)@ + line_at(instructions@, at as int),
        next == next_at(instructions@, at as int),
        at < next <= instructions.len(),
{
    let ghost code = instructions@;
    match Opcode::try_from(instructions[at]) {
        Err(message) => {
            push_str(out, "ERROR: ");
            push_str(out, message.as_str());
            push_str(out, "\n");
            assert(out@ =~= old(out)@ + line_at(code, at as int));
            at + 1
        },
        Ok(op) => {
            let def = op.lookup();
            proof {
                op.lemma_length();
            }
            let width = op.instruction_len();
            if instructions.len() - at < width {
                push_str(out, "ERROR: truncated instruction ");
                push_str(out, def.name);
                push_str(out, "\n");
                assert(out@ =~= old(out)@ + line_at(code, at as int));
                return instructions.len();
            }
            let rest = vstd::slice::slice_subrange(
                instructions.as_slice(),
                at + 1,
                instructions.len(),
            );
            let (operands, read) = read_operands(&def, rest);
            proof {
                lemma_decode_shift(op.widths(), code, 0, 0, at + 1);
                assert(rest@ =~= code.subrange(at + 1, code.len() as int));
            }
            let line = format_instruction(&def, operands);
            push_padded_decimal(out, at as u64);
            push_str(out, " ");
            push_str(out, line.as_str());
            push_str(out, "\n");
            assert(out@ =~= old(out)@ + line_at(code, at as int));
            at + 1 + read
        },
    }
}

/// Disassembles a sequence of instructions.
pub fn instructions_string(instructions: &Instructions) -> (out: String)
    ensures
        out@ == disassemble(instructions@, 0),
{
    let mut out = String::new();
    let mut i: usize = 0;
    let ghost code = instructions@;
    while i < instructions.len()
        invariant
            code == instructions@,
            i <= code.len(),
            out@ + disassemble(code, i as int) == disassemble(code, 0),
        decreases code.len() - i,
    {
        let ghost before = out@;
        let next = write_line(&mut out, instructions, i);
        assert(before + disassemble(code, i as int) =~= out@ + disassemble(code, next as int));
        i = next;
    }
    assert(out@ + disassemble(code, i as int) =~= out@);
    out
}

} // verus!
