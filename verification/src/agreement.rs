//! A law that spans the compiler, the machine and the evaluator: an
//! expression that is made of integers, booleans and operators has one
//! value, whether it is evaluated or compiled and run.

use crate::code::{make_spec, Opcode};
use crate::compiler::laws::{lemma_emit, lemma_make_length, lemma_with_scope};
use crate::compiler::model::{
    compile_expr, compile_infix, compile_stmt, compile_stmts, infix_opcode, prefix_opcode,
    CompilerView, Emitted, ScopeView,
};
use crate::compiler::laws::lemma_wide_operand;
use crate::eval::model::{
    eval_block, eval_expr, eval_infix, eval_program, eval_stmt, infix, prefix, EvalState,
};
use crate::lexer::token::TokenView;
use crate::object::Value;
use crate::parser::ast::{ExpressionView, StatementView};
use crate::parser::infix_operator;
use crate::vm::frame::FrameView;
use crate::vm::machine::{bang, binary, comparison, minus, Machine, GLOBALS_SIZE, STACK_SIZE};
use crate::vm::start;
use vstd::prelude::*;

verus! {

/// Whether an expression is made of integers, booleans, the two prefix
/// operators and the eight binary operators.
pub open spec fn arithmetic(e: ExpressionView) -> bool
    decreases e,
{
    match e {
        ExpressionView::Integer(_) => true,
        ExpressionView::Boolean(_) => true,
        ExpressionView::Prefix(op, right) => (op is Bang || op is Minus) && arithmetic(*right),
        ExpressionView::Infix(op, left, right) => infix_operator(op) && arithmetic(*left)
            && arithmetic(*right),
        _ => false,
    }
}

/// The operand that is compiled first: the right one of `<`, which is
/// compiled as `>` with the operands exchanged, and the left one of every
/// other operator.
pub open spec fn first_operand(e: ExpressionView) -> ExpressionView {
    match e {
        ExpressionView::Infix(op, left, right) => if op is Lt {
            *right
        } else {
            *left
        },
        _ => e,
    }
}

/// The operand that is compiled second.
pub open spec fn second_operand(e: ExpressionView) -> ExpressionView {
    match e {
        ExpressionView::Infix(op, left, right) => if op is Lt {
            *left
        } else {
            *right
        },
        _ => e,
    }
}

/// The opcode of a binary operator.
pub open spec fn operator_opcode(op: TokenView) -> Opcode {
    if op is Lt {
        Opcode::OpGreaterThan
    } else {
        infix_opcode(op)->Some_0
    }
}

/// The integer literals of an expression, in the order in which they are
/// compiled.
pub open spec fn literals(e: ExpressionView) -> Seq<Value>
    decreases e,
{
    match e {
        ExpressionView::Integer(value) => seq![Value::Integer(value)],
        ExpressionView::Prefix(_, right) => literals(*right),
        ExpressionView::Infix(op, left, right) => if op is Lt {
            literals(*right) + literals(*left)
        } else {
            literals(*left) + literals(*right)
        },
        _ => Seq::empty(),
    }
}

/// The instructions of an expression whose first integer literal is the
/// constant with index `base`.
pub open spec fn code_of(e: ExpressionView, base: nat) -> Seq<u8>
    decreases e,
{
    match e {
        ExpressionView::Integer(_) => make_spec(Opcode::OpConstant, seq![base as u64]),
        ExpressionView::Boolean(value) => make_spec(
            if value {
                Opcode::OpTrue
            } else {
                Opcode::OpFalse
            },
            Seq::empty(),
        ),
        ExpressionView::Prefix(op, right) => code_of(*right, base) + make_spec(
            prefix_opcode(op)->Some_0,
            Seq::empty(),
        ),
        ExpressionView::Infix(op, left, right) => if op is Lt {
            code_of(*right, base) + code_of(*left, base + literals(*right).len()) + make_spec(
                Opcode::OpGreaterThan,
                Seq::empty(),
            )
        } else {
            code_of(*left, base) + code_of(*right, base + literals(*left).len()) + make_spec(
                infix_opcode(op)->Some_0,
                Seq::empty(),
            )
        },
        _ => Seq::empty(),
    }
}

/// The number of instructions of an expression.
pub open spec fn instruction_count(e: ExpressionView) -> nat
    decreases e,
{
    match e {
        ExpressionView::Prefix(_, right) => instruction_count(*right) + 1,
        ExpressionView::Infix(_, left, right) => instruction_count(*left) + instruction_count(
            *right,
        ) + 1,
        _ => 1,
    }
}

/// The number of stack slots that the instructions of an expression
/// need.
pub open spec fn stack_need(e: ExpressionView) -> nat
    decreases e,
{
    match e {
        ExpressionView::Prefix(_, right) => stack_need(*right),
        ExpressionView::Infix(op, left, right) => {
            let first = stack_need(first_operand(e));
            let second = stack_need(second_operand(e)) + 1;
            if first >= second {
                first
            } else {
                second
            }
        },
        _ => 1,
    }
}

/// What an emitted instruction adds to the current scope.
pub proof fn lemma_emit_code(c: CompilerView, op: Opcode, operands: Seq<u64>)
    requires
        c.scopes.len() >= 1,
    ensures
        c.emit(op, operands).code() == c.code() + make_spec(op, operands),
        c.emit(op, operands).constants == c.constants,
        c.emit(op, operands).scopes.len() == c.scopes.len(),
{
    lemma_with_scope(
        c,
        ScopeView {
            instructions: c.code() + make_spec(op, operands),
            last: Some(Emitted { opcode: op, position: c.code().len() as int }),
            previous: c.scope().last,
        },
    );
}

/// Compiling an arithmetic expression adds its instructions to the
/// current scope and its literals to the constants.
pub proof fn lemma_compile_arithmetic(c: CompilerView, e: ExpressionView)
    requires
        c.scopes.len() >= 1,
        arithmetic(e),
    ensures
        compile_expr(c, e) is Ok,
        compile_expr(c, e)->Ok_0.code() == c.code() + code_of(e, c.constants.len()),
        compile_expr(c, e)->Ok_0.constants == c.constants + literals(e),
        compile_expr(c, e)->Ok_0.scopes.len() == c.scopes.len(),
    decreases e,
{
    match e {
        ExpressionView::Integer(value) => {
            let c1 = c.add_constant(Value::Integer(value));
            assert(c1.scope() == c.scope());
            lemma_emit_code(c1, Opcode::OpConstant, seq![c.constants.len() as u64]);
            assert(c1.constants =~= c.constants + literals(e));
        },
        ExpressionView::Boolean(value) => {
            lemma_emit_code(
                c,
                if value {
                    Opcode::OpTrue
                } else {
                    Opcode::OpFalse
                },
                Seq::empty(),
            );
            assert(c.constants =~= c.constants + literals(e));
        },
        ExpressionView::Prefix(op, right) => {
            lemma_compile_arithmetic(c, *right);
            let c1 = compile_expr(c, *right)->Ok_0;
            lemma_emit_code(c1, prefix_opcode(op)->Some_0, Seq::empty());
            let d = compile_expr(c, e)->Ok_0;
            assert(d.code() =~= c.code() + code_of(e, c.constants.len()));
        },
        ExpressionView::Infix(op, left, right) => {
            let first = first_operand(e);
            let second = second_operand(e);
            lemma_compile_arithmetic(c, first);
            let c1 = compile_expr(c, first)->Ok_0;
            lemma_compile_arithmetic(c1, second);
            let c2 = compile_expr(c1, second)->Ok_0;
            let opcode = operator_opcode(op);
            lemma_emit_code(c2, opcode, Seq::empty());
            let d = compile_infix(c, e)->Ok_0;
            assert(d == c2.emit(opcode, Seq::empty()));
            assert(c1.constants.len() == c.constants.len() + literals(first).len());
            assert(d.code() =~= c.code() + code_of(e, c.constants.len()));
            assert(d.constants =~= c.constants + literals(e));
        },
        _ => {},
    }
}

/// The bytecode of a program of one arithmetic expression: the
/// instructions of the expression and an `OpPop`, with the literals of the
/// expression as constants.
pub proof fn lemma_compile_program(e: ExpressionView)
    requires
        arithmetic(e),
    ensures
        ({
            let compiled = compile_stmts(
                CompilerView::fresh(),
                seq![StatementView::Expression(e)],
                0,
            );
            &&& compiled is Ok
            &&& compiled->Ok_0.code() == code_of(e, 0) + make_spec(Opcode::OpPop, Seq::empty())
            &&& compiled->Ok_0.constants == literals(e)
        }),
{
    let c = CompilerView::fresh();
    let program = seq![StatementView::Expression(e)];
    lemma_compile_arithmetic(c, e);
    let c1 = compile_expr(c, e)->Ok_0;
    lemma_emit_code(c1, Opcode::OpPop, Seq::empty());
    let d = c1.emit(Opcode::OpPop, Seq::empty());
    assert(compile_stmt(c, program[0]) == Ok::<CompilerView, Seq<char>>(d));
    reveal_with_fuel(compile_stmts, 3);
    assert(compile_stmts(c, program, 0) == Ok::<CompilerView, Seq<char>>(d));
    assert(c.code() =~= Seq::<u8>::empty());
    assert(c.constants =~= Seq::<Value>::empty());
    assert(d.code() =~= code_of(e, 0) + make_spec(Opcode::OpPop, Seq::empty()));
    assert(d.constants =~= literals(e));
}

/// The machine after `n` instructions, none of which it had halted
/// before.
pub open spec fn steps(m: Machine, n: nat) -> Result<Machine, Seq<char>>
    decreases n,
{
    if n == 0 {
        Ok(m)
    } else if m.halted() {
        Err("halted"@)
    } else {
        match m.step() {
            Ok(next) => steps(next, (n - 1) as nat),
            Err(e) => Err(e),
        }
    }
}

/// Instructions that run one after the other.
pub proof fn lemma_steps_join(m: Machine, a: nat, b: nat)
    requires
        steps(m, a) is Ok,
    ensures
        steps(m, a + b) == steps(steps(m, a)->Ok_0, b),
    decreases a,
{
    if a > 0 {
        lemma_steps_join(m.step()->Ok_0, (a - 1) as nat, b);
    }
}

/// A run goes through the instructions that the machine steps through.
pub proof fn lemma_run_after(m: Machine, n: nat, fuel: nat)
    requires
        steps(m, n) is Ok,
        fuel >= n,
    ensures
        m.run(fuel) == steps(m, n)->Ok_0.run((fuel - n) as nat),
    decreases n,
{
    if n > 0 {
        lemma_run_after(m.step()->Ok_0, (n - 1) as nat, (fuel - 1) as nat);
    }
}

/// Whether bytes stand in `code` from offset `at` on.
pub open spec fn bytes_stand(code: Seq<u8>, at: int, bytes: Seq<u8>) -> bool {
    &&& 0 <= at
    &&& at + bytes.len() <= code.len()
    &&& forall|k: int| 0 <= k < bytes.len() ==> code[at + k] == #[trigger] bytes[k]
}

/// Bytes of two parts stand where their parts stand one behind the other.
pub proof fn lemma_bytes_parts(code: Seq<u8>, at: int, first: Seq<u8>, second: Seq<u8>)
    requires
        bytes_stand(code, at, first + second),
    ensures
        bytes_stand(code, at, first),
        bytes_stand(code, at + first.len(), second),
{
    assert forall|k: int| 0 <= k < first.len() implies code[at + k] == #[trigger] first[k] by {
        assert((first + second)[k] == first[k]);
    }
    assert forall|k: int| 0 <= k < second.len() implies code[at + first.len() + k]
        == #[trigger] second[k] by {
        assert((first + second)[first.len() + k] == second[k]);
    }
}

/// Whether machine `after` is machine `m` with `value` pushed and the
/// running frame at offset `ip`; the slots above the top may hold
/// anything.
pub open spec fn pushed(m: Machine, after: Machine, value: Value, ip: int) -> bool {
    &&& after.constants == m.constants
    &&& after.globals == m.globals
    &&& after.output == m.output
    &&& after.frames == m.jump(ip).frames
    &&& after.sp == m.sp + 1
    &&& after.stack.len() == m.stack.len()
    &&& after.stack[m.sp] == value
    &&& forall|i: int| 0 <= i < m.sp ==> after.stack[i] == m.stack[i]
}

/// Whether the machine can run: its vectors have their sizes and a frame
/// is open at an offset within its instructions.
pub open spec fn running(m: Machine) -> bool {
    m.wf() && m.frames.len() >= 1 && 0 <= m.frame().ip
}

/// `OpConstant` pushes the constant that its operand names.
pub proof fn lemma_step_constant(m: Machine, index: nat)
    requires
        running(m),
        bytes_stand(m.code(), m.frame().ip, make_spec(Opcode::OpConstant, seq![index as u64])),
        index < m.constants.len(),
        index <= 0xFFFF,
        m.sp < STACK_SIZE,
    ensures
        !m.halted(),
        m.step() is Ok,
        running(m.step()->Ok_0),
        pushed(m, m.step()->Ok_0, m.constants[index as int], m.frame().ip + 3),
{
    let ip = m.frame().ip;
    let bytes = make_spec(Opcode::OpConstant, seq![index as u64]);
    lemma_wide_operand(Opcode::OpConstant, index as u64);
    assert(m.code()[ip + 0] == bytes[0]);
    assert(m.code()[ip + 1] == bytes[1]);
    assert(m.code()[ip + 2] == bytes[2]);
    assert(Opcode::of_byte(m.code()[ip]) == Some(Opcode::OpConstant));
    assert(m.first_operand(Opcode::OpConstant, ip) == index);
    let after = m.push(m.constants[index as int])->Ok_0.jump(ip + 3);
    assert(m.step() == Ok::<Machine, Seq<char>>(after));
    assert(after.frames =~= m.jump(ip + 3).frames);
}

/// An instruction without operands that pushes a value.
pub proof fn lemma_step_push(m: Machine, op: Opcode, value: Value)
    requires
        running(m),
        bytes_stand(m.code(), m.frame().ip, make_spec(op, Seq::empty())),
        op == Opcode::OpTrue && value == Value::Boolean(true) || op == Opcode::OpFalse && value
            == Value::Boolean(false),
        m.sp < STACK_SIZE,
    ensures
        !m.halted(),
        m.step() is Ok,
        running(m.step()->Ok_0),
        pushed(m, m.step()->Ok_0, value, m.frame().ip + 1),
{
    let ip = m.frame().ip;
    let bytes = make_spec(op, Seq::empty());
    lemma_make_length(op, Seq::empty());
    assert(m.code()[ip + 0] == bytes[0]);
    assert(Opcode::of_byte(m.code()[ip]) == Some(op));
    let after = m.push(value)->Ok_0.jump(ip + 1);
    assert(m.step() == Ok::<Machine, Seq<char>>(after));
    assert(after.frames =~= m.jump(ip + 1).frames);
}

/// An instruction that puts a value in the place of the top of the
/// stack.
pub proof fn lemma_step_unary(base: Machine, m: Machine, op: Opcode, operand: Value, at: int)
    requires
        running(base),
        running(m),
        pushed(base, m, operand, at),
        bytes_stand(m.code(), at, make_spec(op, Seq::empty())),
        op == Opcode::OpBang || op == Opcode::OpMinus && minus(operand) is Ok,
    ensures
        !m.halted(),
        m.step() is Ok,
        running(m.step()->Ok_0),
        pushed(
            base,
            m.step()->Ok_0,
            if op == Opcode::OpBang {
                bang(operand)
            } else {
                minus(operand)->Ok_0
            },
            at + 1,
        ),
{
    let bytes = make_spec(op, Seq::empty());
    lemma_make_length(op, Seq::empty());
    assert(m.frame().ip == at);
    assert(m.code()[at + 0] == bytes[0]);
    assert(Opcode::of_byte(m.code()[at]) == Some(op));
    let value = if op == Opcode::OpBang {
        bang(operand)
    } else {
        minus(operand)->Ok_0
    };
    let after = m.drop(1).push(value)->Ok_0.jump(at + 1);
    assert(m.peek(0) == operand);
    assert(m.step() == Ok::<Machine, Seq<char>>(after));
    assert(after.frames =~= base.jump(at + 1).frames);
}

/// Whether an opcode computes a number from two.
pub open spec fn is_arithmetic_opcode(op: Opcode) -> bool {
    op == Opcode::OpAdd || op == Opcode::OpSub || op == Opcode::OpMul || op == Opcode::OpDiv
}

/// Whether an opcode compares two values.
pub open spec fn is_comparison_opcode(op: Opcode) -> bool {
    op == Opcode::OpEqual || op == Opcode::OpNotEqual || op == Opcode::OpGreaterThan
}

/// What an instruction makes of two operands.
pub open spec fn combine(op: Opcode, left: Value, right: Value) -> Result<Value, Seq<char>> {
    if is_arithmetic_opcode(op) {
        binary(op, left, right)
    } else {
        comparison(op, left, right)
    }
}

/// An instruction that puts a value in the place of the two values on top
/// of the stack.
pub proof fn lemma_step_binary(
    base: Machine,
    lower: Machine,
    m: Machine,
    op: Opcode,
    left: Value,
    right: Value,
    mid: int,
    at: int,
)
    requires
        running(base),
        running(lower),
        running(m),
        pushed(base, lower, left, mid),
        pushed(lower, m, right, at),
        bytes_stand(m.code(), at, make_spec(op, Seq::empty())),
        is_arithmetic_opcode(op) || is_comparison_opcode(op),
        combine(op, left, right) is Ok,
    ensures
        !m.halted(),
        m.step() is Ok,
        running(m.step()->Ok_0),
        pushed(base, m.step()->Ok_0, combine(op, left, right)->Ok_0, at + 1),
{
    let bytes = make_spec(op, Seq::empty());
    lemma_make_length(op, Seq::empty());
    assert(m.frame().ip == at);
    assert(m.code()[at + 0] == bytes[0]);
    assert(Opcode::of_byte(m.code()[at]) == Some(op));
    let value = combine(op, left, right)->Ok_0;
    let after = m.drop(2).push(value)->Ok_0.jump(at + 1);
    assert(m.peek(0) == right);
    assert(m.peek(1) == left);
    assert(m.step() == Ok::<Machine, Seq<char>>(after));
    assert(after.frames =~= base.jump(at + 1).frames);
}

/// `OpPop` takes the top of the stack off.
pub proof fn lemma_step_pop(m: Machine)
    requires
        running(m),
        bytes_stand(m.code(), m.frame().ip, make_spec(Opcode::OpPop, Seq::empty())),
        m.sp >= 1,
    ensures
        !m.halted(),
        m.step() == Ok::<Machine, Seq<char>>(m.drop(1).jump(m.frame().ip + 1)),
{
    let ip = m.frame().ip;
    let bytes = make_spec(Opcode::OpPop, Seq::empty());
    lemma_make_length(Opcode::OpPop, Seq::empty());
    assert(m.code()[ip + 0] == bytes[0]);
    assert(Opcode::of_byte(m.code()[ip]) == Some(Opcode::OpPop));
}

/// Evaluating an arithmetic expression changes nothing and gives an
/// integer or a boolean, computed from the values of the operands.
pub proof fn lemma_eval_arithmetic(s: EvalState, e: ExpressionView, fuel: nat)
    requires
        arithmetic(e),
    ensures
        eval_expr(s, e, fuel).state == s,
        eval_expr(s, e, fuel).result is Ok ==> eval_expr(s, e, fuel).result->Ok_0 is Integer
            || eval_expr(s, e, fuel).result->Ok_0 is Boolean,
        eval_expr(s, e, fuel).result is Ok ==> match e {
            ExpressionView::Integer(value) => eval_expr(s, e, fuel).result->Ok_0 == Value::Integer(
                value,
            ),
            ExpressionView::Boolean(value) => eval_expr(s, e, fuel).result->Ok_0 == Value::Boolean(
                value,
            ),
            ExpressionView::Prefix(op, right) => eval_expr(s, *right, fuel).result is Ok
                && eval_expr(s, e, fuel).result == prefix(
                op,
                eval_expr(s, *right, fuel).result->Ok_0,
            ),
            ExpressionView::Infix(op, left, right) => eval_expr(s, *left, fuel).result is Ok
                && eval_expr(s, *right, fuel).result is Ok && eval_expr(s, e, fuel).result == infix(
                op,
                eval_expr(s, *left, fuel).result->Ok_0,
                eval_expr(s, *right, fuel).result->Ok_0,
            ),
            _ => true,
        },
    decreases e,
{
    match e {
        ExpressionView::Prefix(op, right) => {
            lemma_eval_arithmetic(s, *right, fuel);
        },
        ExpressionView::Infix(op, left, right) => {
            lemma_eval_arithmetic(s, *left, fuel);
            lemma_eval_arithmetic(s, *right, fuel);
            assert(eval_expr(s, e, fuel) == eval_infix(s, e, fuel));
        },
        _ => {},
    }
}

/// The machine's instruction for a binary operator computes what the
/// evaluator computes, on integers and booleans.
pub proof fn lemma_infix_agrees(op: TokenView, left: Value, right: Value)
    requires
        infix_operator(op),
        left is Integer || left is Boolean,
        right is Integer || right is Boolean,
        infix(op, left, right) is Ok,
    ensures
        is_arithmetic_opcode(operator_opcode(op)) || is_comparison_opcode(operator_opcode(op)),
        combine(
            operator_opcode(op),
            if op is Lt {
                right
            } else {
                left
            },
            if op is Lt {
                left
            } else {
                right
            },
        ) == infix(op, left, right),
{
}

/// The machine's instruction for a prefix operator computes what the
/// evaluator computes, on integers and booleans.
pub proof fn lemma_prefix_agrees(op: TokenView, operand: Value)
    requires
        op is Bang || op is Minus,
        operand is Integer || operand is Boolean,
        prefix(op, operand) is Ok,
    ensures
        op is Bang ==> prefix(op, operand) == Ok::<Value, Seq<char>>(bang(operand)),
        op is Minus ==> prefix(op, operand) == minus(operand),
{
}

/// Whether values stand among the constants from index `base` on.
pub open spec fn constants_stand(constants: Seq<Value>, base: nat, values: Seq<Value>) -> bool {
    &&& base + values.len() <= constants.len()
    &&& forall|k: int| 0 <= k < values.len() ==> constants[base + k] == #[trigger] values[k]
}

/// Whether the machine can run the instructions of `e` that stand at its
/// running frame's offset, with the literals of `e` among its constants
/// from index `base` on and room on the stack.
pub open spec fn set_to_run(m: Machine, e: ExpressionView, base: nat) -> bool {
    &&& running(m)
    &&& arithmetic(e)
    &&& bytes_stand(m.code(), m.frame().ip, code_of(e, base))
    &&& constants_stand(m.constants, base, literals(e))
    &&& base + literals(e).len() <= 0x10000
    &&& m.sp + stack_need(e) <= STACK_SIZE
}

/// Whether the machine, from state `m`, runs the instructions of `e` and
/// pushes `value`.
pub open spec fn runs_to(m: Machine, e: ExpressionView, base: nat, value: Value) -> bool {
    &&& steps(m, instruction_count(e)) is Ok
    &&& running(steps(m, instruction_count(e))->Ok_0)
    &&& pushed(
        m,
        steps(m, instruction_count(e))->Ok_0,
        value,
        m.frame().ip + code_of(e, base).len(),
    )
}

/// A machine that is set to run an expression with two operands is set to
/// run the first operand, and behind that the second.
pub proof fn lemma_operands_set(m: Machine, e: ExpressionView, base: nat)
    requires
        set_to_run(m, e, base),
        e is Infix,
    ensures
        set_to_run(m, first_operand(e), base),
        bytes_stand(
            m.code(),
            m.frame().ip + code_of(first_operand(e), base).len(),
            code_of(second_operand(e), base + literals(first_operand(e)).len()),
        ),
        constants_stand(
            m.constants,
            base + literals(first_operand(e)).len(),
            literals(second_operand(e)),
        ),
        bytes_stand(
            m.code(),
            m.frame().ip + code_of(first_operand(e), base).len() + code_of(
                second_operand(e),
                base + literals(first_operand(e)).len(),
            ).len(),
            make_spec(operator_opcode(e->Infix_0), Seq::empty()),
        ),
        code_of(e, base).len() == code_of(first_operand(e), base).len() + code_of(
            second_operand(e),
            base + literals(first_operand(e)).len(),
        ).len() + 1,
        arithmetic(second_operand(e)),
        base + literals(first_operand(e)).len() + literals(second_operand(e)).len() <= 0x10000,
        m.sp + 1 + stack_need(second_operand(e)) <= STACK_SIZE,
        instruction_count(e) == instruction_count(first_operand(e)) + (instruction_count(
            second_operand(e),
        ) + 1),
{
    let ip = m.frame().ip;
    let first = first_operand(e);
    let second = second_operand(e);
    let opcode = operator_opcode(e->Infix_0);
    let code_first = code_of(first, base);
    let code_second = code_of(second, base + literals(first).len());
    let last = make_spec(opcode, Seq::empty());
    lemma_make_length(opcode, Seq::empty());
    assert(code_of(e, base) == code_first + code_second + last);
    lemma_bytes_parts(m.code(), ip, code_first + code_second, last);
    lemma_bytes_parts(m.code(), ip, code_first, code_second);
    assert(literals(e) == literals(first) + literals(second));
    assert forall|k: int| 0 <= k < literals(first).len() implies m.constants[base + k]
        == #[trigger] literals(first)[k] by {
        assert(literals(e)[k] == literals(first)[k]);
    }
    assert forall|k: int| 0 <= k < literals(second).len() implies m.constants[base + literals(
        first,
    ).len() + k] == #[trigger] literals(second)[k] by {
        assert(literals(e)[literals(first).len() + k] == literals(second)[k]);
    }
}

/// The machine runs an expression with two operands: the operands one
/// after the other, then the operator's instruction.
pub proof fn lemma_run_infix(m: Machine, e: ExpressionView, base: nat, s: EvalState, fuel: nat)
    requires
        set_to_run(m, e, base),
        e is Infix,
        eval_expr(s, e, fuel).result is Ok,
    ensures
        runs_to(m, e, base, eval_expr(s, e, fuel).result->Ok_0),
    decreases e, 0nat,
{
    let ip = m.frame().ip;
    let first = first_operand(e);
    let second = second_operand(e);
    let op = e->Infix_0;
    let opcode = operator_opcode(op);
    lemma_operands_set(m, e, base);
    lemma_eval_arithmetic(s, e, fuel);
    lemma_eval_arithmetic(s, first, fuel);
    lemma_eval_arithmetic(s, second, fuel);
    let first_value = eval_expr(s, first, fuel).result->Ok_0;
    let second_value = eval_expr(s, second, fuel).result->Ok_0;
    if op is Lt {
        lemma_infix_agrees(op, second_value, first_value);
    } else {
        lemma_infix_agrees(op, first_value, second_value);
    }
    lemma_run_arithmetic(m, first, base, s, fuel);
    let count_first = instruction_count(first);
    let m1 = steps(m, count_first)->Ok_0;
    assert(m1.code() == m.code());
    let second_base = base + literals(first).len();
    assert(set_to_run(m1, second, second_base));
    lemma_run_arithmetic(m1, second, second_base, s, fuel);
    let count_second = instruction_count(second);
    let m2 = steps(m1, count_second)->Ok_0;
    assert(m2.code() == m.code());
    let ip_second = ip + code_of(first, base).len();
    let ip_operator = ip_second + code_of(second, second_base).len();
    lemma_step_binary(m, m1, m2, opcode, first_value, second_value, ip_second, ip_operator);
    lemma_steps_join(m1, count_second, 1);
    lemma_steps_join(m, count_first, count_second + 1);
    assert(steps(m2, 1) == steps(m2.step()->Ok_0, 0));
}

/// The machine runs an expression with a prefix operator: the operand,
/// then the operator's instruction.
pub proof fn lemma_run_prefix(m: Machine, e: ExpressionView, base: nat, s: EvalState, fuel: nat)
    requires
        set_to_run(m, e, base),
        e is Prefix,
        eval_expr(s, e, fuel).result is Ok,
    ensures
        runs_to(m, e, base, eval_expr(s, e, fuel).result->Ok_0),
    decreases e, 0nat,
{
    let ip = m.frame().ip;
    let op = e->Prefix_0;
    let right = *e->Prefix_1;
    let opcode = prefix_opcode(op)->Some_0;
    let inner = code_of(right, base);
    lemma_make_length(opcode, Seq::empty());
    lemma_bytes_parts(m.code(), ip, inner, make_spec(opcode, Seq::empty()));
    lemma_eval_arithmetic(s, e, fuel);
    lemma_eval_arithmetic(s, right, fuel);
    assert(set_to_run(m, right, base));
    lemma_run_arithmetic(m, right, base, s, fuel);
    let count = instruction_count(right);
    let m1 = steps(m, count)->Ok_0;
    let operand = eval_expr(s, right, fuel).result->Ok_0;
    lemma_prefix_agrees(op, operand);
    assert(m1.code() == m.code());
    lemma_step_unary(m, m1, opcode, operand, ip + inner.len());
    lemma_steps_join(m, count, 1);
    assert(steps(m1, 1) == steps(m1.step()->Ok_0, 0));
}

/// The machine that runs the instructions of an arithmetic expression
/// pushes the value that the evaluator gives the expression.
pub proof fn lemma_run_arithmetic(
    m: Machine,
    e: ExpressionView,
    base: nat,
    s: EvalState,
    fuel: nat,
)
    requires
        set_to_run(m, e, base),
        eval_expr(s, e, fuel).result is Ok,
    ensures
        runs_to(m, e, base, eval_expr(s, e, fuel).result->Ok_0),
    decreases e, 1nat,
{
    lemma_eval_arithmetic(s, e, fuel);
    match e {
        ExpressionView::Integer(value) => {
            assert(m.constants[(base + 0) as int] == literals(e)[0]);
            lemma_step_constant(m, base);
            lemma_make_length(Opcode::OpConstant, seq![base as u64]);
            assert(steps(m, 1) == steps(m.step()->Ok_0, 0));
        },
        ExpressionView::Boolean(value) => {
            let op = if value {
                Opcode::OpTrue
            } else {
                Opcode::OpFalse
            };
            lemma_step_push(m, op, Value::Boolean(value));
            lemma_make_length(op, Seq::empty());
            assert(steps(m, 1) == steps(m.step()->Ok_0, 0));
        },
        ExpressionView::Prefix(_, _) => {
            lemma_run_prefix(m, e, base, s, fuel);
        },
        ExpressionView::Infix(_, _, _) => {
            lemma_run_infix(m, e, base, s, fuel);
        },
        _ => {},
    }
}

/// The machine computes what the evaluator computes: where the evaluator
/// gives an arithmetic expression a value, the program that consists of
/// the expression, compiled by a compiler that has compiled nothing and
/// run by the machine, leaves that value as the last that was taken off
/// the stack. The expression must have no more than 65536 integer
/// literals, its instructions must need no more slots than the stack has,
/// and the machine must be let run for more steps than the expression has
/// instructions.
pub proof fn lemma_machine_agrees_with_evaluator(
    e: ExpressionView,
    s: EvalState,
    fuel: nat,
    globals: Seq<Value>,
    budget: nat,
)
    requires
        arithmetic(e),
        literals(e).len() <= 0x10000,
        stack_need(e) <= STACK_SIZE,
        globals.len() == GLOBALS_SIZE,
        budget > instruction_count(e),
        eval_program(s, seq![StatementView::Expression(e)], fuel).result is Ok,
    ensures
        ({
            let program = seq![StatementView::Expression(e)];
            let compiled = compile_stmts(CompilerView::fresh(), program, 0);
            let ran = start(compiled->Ok_0.code(), compiled->Ok_0.constants, globals).run(budget);
            &&& compiled is Ok
            &&& ran is Ok
            &&& ran->Ok_0.sp == 0
            &&& ran->Ok_0.stack[0] == eval_program(s, program, fuel).result->Ok_0
        }),
{
    let program = seq![StatementView::Expression(e)];
    lemma_compile_program(e);
    let compiled = compile_stmts(CompilerView::fresh(), program, 0)->Ok_0;
    let code = compiled.code();
    let own = code_of(e, 0);
    let pop = make_spec(Opcode::OpPop, Seq::empty());
    lemma_make_length(Opcode::OpPop, Seq::empty());
    // what the evaluator gives
    lemma_eval_arithmetic(s, e, fuel);
    reveal_with_fuel(eval_block, 3);
    assert(eval_stmt(s, program[0], fuel) == eval_expr(s, e, fuel));
    let value = eval_expr(s, e, fuel).result->Ok_0;
    assert(eval_program(s, program, fuel).result == Ok::<Value, Seq<char>>(value));
    // what the machine does
    let m0 = start(code, compiled.constants, globals);
    assert(m0.frame().ip == 0);
    assert(m0.code() == code);
    assert(running(m0));
    assert(bytes_stand(code, 0, own + pop));
    lemma_bytes_parts(code, 0, own, pop);
    assert(constants_stand(m0.constants, 0, literals(e)));
    assert(set_to_run(m0, e, 0));
    lemma_run_arithmetic(m0, e, 0, s, fuel);
    let count = instruction_count(e);
    let m1 = steps(m0, count)->Ok_0;
    assert(m1.code() == code);
    lemma_step_pop(m1);
    let m2 = m1.drop(1).jump((own.len() + 1) as int);
    lemma_steps_join(m0, count, 1);
    assert(steps(m1, 1) == steps(m1.step()->Ok_0, 0));
    assert(steps(m0, count + 1) == Ok::<Machine, Seq<char>>(m2));
    lemma_run_after(m0, count + 1, budget);
    assert(m2.halted());
    assert(m2.run((budget - (count + 1)) as nat) == Ok::<Machine, Seq<char>>(m2));
}

} // verus!
