//! What the compiler does, stated over mathematical values: the
//! compiler's state as sequences and maps, and the function from a state
//! and a syntax tree to the state after compiling it.

use crate::code::{make_spec, Opcode};
use crate::compiler::symbol_table::{SymbolScope, SymbolView, TableView};
use crate::lexer::token::TokenView;
use crate::object::{Builtin, FunctionView, Value};
use crate::parser::ast::{print_expr, ExpressionView, StatementView};
use vstd::prelude::*;

verus! {

/// The opcode of an emitted instruction and the offset it stands at.
pub struct Emitted {
    pub opcode: Opcode,
    pub position: int,
}

/// One compilation scope as a mathematical value.
#[verifier::ext_equal]
pub struct ScopeView {
    pub instructions: Seq<u8>,
    pub last: Option<Emitted>,
    pub previous: Option<Emitted>,
}

/// The compiler's state as a mathematical value.
#[verifier::ext_equal]
pub struct CompilerView {
    pub constants: Seq<Value>,
    pub symbols: TableView,
    /// The open scopes, the main program's first and the current one last.
    pub scopes: Seq<ScopeView>,
}

/// Whether text `a` comes before text `b`, or is equal to it, in the
/// order of dictionaries over the characters' code points, from the
/// character at index `i` on.
pub open spec fn text_le(a: Seq<char>, b: Seq<char>, i: int) -> bool
    decreases a.len() - i,
{
    if i < 0 || i >= a.len() {
        true
    } else if i >= b.len() {
        false
    } else if a[i] != b[i] {
        (a[i] as u32) < (b[i] as u32)
    } else {
        text_le(a, b, i + 1)
    }
}

/// The sorted list `order` of indices with the index `k` put in: behind
/// the last index whose text is not greater than that of `k`.
pub open spec fn insert_index(order: Seq<int>, keys: Seq<Seq<char>>, k: int) -> Seq<int>
    decreases order.len(),
{
    if order.len() == 0 {
        seq![k]
    } else if text_le(keys[order.last()], keys[k], 0) {
        order.push(k)
    } else {
        insert_index(order.drop_last(), keys, k).push(order.last())
    }
}

/// The indices `0..n` in the order of their texts; indices with equal
/// texts keep their order.
pub open spec fn sort_order(keys: Seq<Seq<char>>, n: nat) -> Seq<int>
    decreases n,
{
    if n == 0 {
        Seq::empty()
    } else {
        insert_index(sort_order(keys, (n - 1) as nat), keys, n - 1)
    }
}

/// The printed forms of the keys of a hash literal.
pub open spec fn key_texts(pairs: Seq<(ExpressionView, ExpressionView)>) -> Seq<Seq<char>> {
    Seq::new(pairs.len(), |i: int| print_expr(pairs[i].0))
}

/// The opcode of a binary operator other than `<`.
pub open spec fn infix_opcode(op: TokenView) -> Option<Opcode> {
    match op {
        TokenView::Plus => Some(Opcode::OpAdd),
        TokenView::Minus => Some(Opcode::OpSub),
        TokenView::Asterisk => Some(Opcode::OpMul),
        TokenView::Slash => Some(Opcode::OpDiv),
        TokenView::Eq => Some(Opcode::OpEqual),
        TokenView::NotEq => Some(Opcode::OpNotEqual),
        TokenView::Gt => Some(Opcode::OpGreaterThan),
        _ => None,
    }
}

/// The opcode of a prefix operator.
pub open spec fn prefix_opcode(op: TokenView) -> Option<Opcode> {
    match op {
        TokenView::Minus => Some(Opcode::OpMinus),
        TokenView::Bang => Some(Opcode::OpBang),
        _ => None,
    }
}

/// The message for an operator that the compiler does not know.
pub open spec fn unknown_operator_text(op: TokenView) -> Seq<char> {
    "unknown operator: "@ + op.display()
}

/// The message for a name that nothing defines.
pub open spec fn undefined_variable_text(name: Seq<char>) -> Seq<char> {
    "undefined variable: "@ + name
}

/// Whether a `let` binds a function literal that carries the bound name,
/// so that the name must be defined before the function is compiled.
pub open spec fn binds_itself(name: Seq<char>, value: ExpressionView) -> bool {
    value matches ExpressionView::Function(_, _, Some(own)) && own == name
}

/// The table of the outermost scope with the built-in functions defined
/// from index `i` on.
pub open spec fn with_builtins(table: TableView, i: nat) -> TableView
    decreases 6 - i,
{
    match Builtin::at(i) {
        Some(builtin) => if i < 6 {
            with_builtins(table.define_builtin(i as usize, builtin.name()), i + 1)
        } else {
            table
        },
        None => table,
    }
}

impl ScopeView {
    /// A scope without instructions.
    pub open spec fn empty() -> ScopeView {
        ScopeView { instructions: Seq::empty(), last: None, previous: None }
    }
}

impl CompilerView {
    /// A compiler that has compiled nothing: one empty scope, no
    /// constants, and a symbol table that knows the built-in functions.
    pub open spec fn fresh() -> CompilerView {
        CompilerView {
            constants: Seq::empty(),
            symbols: with_builtins(TableView::empty(None), 0),
            scopes: seq![ScopeView::empty()],
        }
    }

    /// The current scope.
    pub open spec fn scope(self) -> ScopeView {
        self.scopes.last()
    }

    /// The instructions of the current scope.
    pub open spec fn code(self) -> Seq<u8> {
        self.scope().instructions
    }

    /// The state with the current scope replaced.
    pub open spec fn with_scope(self, scope: ScopeView) -> CompilerView {
        CompilerView { scopes: self.scopes.update(self.scopes.len() - 1, scope), ..self }
    }

    /// The state with another symbol table.
    pub open spec fn with_symbols(self, symbols: TableView) -> CompilerView {
        CompilerView { symbols, ..self }
    }

    /// The state with `value` as one more constant; its index is the
    /// number of constants before.
    pub open spec fn add_constant(self, value: Value) -> CompilerView {
        CompilerView { constants: self.constants.push(value), ..self }
    }

    /// The state after the instruction `op operands…` was emitted: its
    /// bytes are appended to the current scope, it becomes the last
    /// instruction, and what was the last becomes the previous.
    pub open spec fn emit(self, op: Opcode, operands: Seq<u64>) -> CompilerView {
        self.with_scope(
            ScopeView {
                instructions: self.code() + make_spec(op, operands),
                last: Some(Emitted { opcode: op, position: self.code().len() as int }),
                previous: self.scope().last,
            },
        )
    }

    /// Whether the last instruction emitted in the current scope is `op`.
    pub open spec fn last_is(self, op: Opcode) -> bool {
        self.scope().last matches Some(last) && last.opcode == op
    }

    /// The state with the last instruction cut off: the instructions end
    /// where it began, and the previous instruction counts as the last.
    pub open spec fn remove_last(self) -> CompilerView {
        match self.scope().last {
            Some(last) => self.with_scope(
                ScopeView {
                    instructions: if 0 <= last.position <= self.code().len() {
                        self.code().subrange(0, last.position)
                    } else {
                        self.code()
                    },
                    last: self.scope().previous,
                    previous: self.scope().previous,
                },
            ),
            None => self,
        }
    }

    /// The state with a trailing `OpPop` cut off, if there is one.
    pub open spec fn strip_pop(self) -> CompilerView {
        if self.last_is(Opcode::OpPop) {
            self.remove_last()
        } else {
            self
        }
    }

    /// The state with `bytes` written over the instructions from
    /// `position` on; nothing changes where they do not fit.
    pub open spec fn replace_instruction(self, position: int, bytes: Seq<u8>) -> CompilerView {
        if 0 <= position && position + bytes.len() <= self.code().len() {
            self.with_scope(
                ScopeView {
                    instructions: Seq::new(
                        self.code().len(),
                        |i: int|
                            if position <= i < position + bytes.len() {
                                bytes[i - position]
                            } else {
                                self.code()[i]
                            },
                    ),
                    ..self.scope()
                },
            )
        } else {
            self
        }
    }

    /// The state with the instruction at `position` given `operand` as its
    /// only operand; nothing changes where no instruction can stand there.
    pub open spec fn change_operand(self, position: int, operand: u64) -> CompilerView {
        if 0 <= position < self.code().len() {
            match Opcode::of_byte(self.code()[position]) {
                Some(op) => self.replace_instruction(position, make_spec(op, seq![operand])),
                None => self,
            }
        } else {
            self
        }
    }

    /// The state with the last instruction, an `OpPop`, turned into
    /// `OpReturnValue`.
    pub open spec fn replace_last_pop_with_return(self) -> CompilerView {
        match self.scope().last {
            Some(last) => self.replace_instruction(
                last.position,
                make_spec(Opcode::OpReturnValue, Seq::empty()),
            ).with_last(Some(Emitted { opcode: Opcode::OpReturnValue, position: last.position })),
            None => self,
        }
    }

    /// The state with another record of the last instruction.
    pub open spec fn with_last(self, last: Option<Emitted>) -> CompilerView {
        self.with_scope(ScopeView { last, ..self.scope() })
    }

    /// The state inside a new scope: no instructions yet, and a new symbol
    /// table within the current one.
    pub open spec fn enter_scope(self) -> CompilerView {
        CompilerView {
            scopes: self.scopes.push(ScopeView::empty()),
            symbols: TableView::empty(Some(self.symbols)),
            ..self
        }
    }

    /// The state after the current scope was left: the scope around it is
    /// current again, with its symbol table.
    pub open spec fn leave_scope(self) -> CompilerView {
        CompilerView {
            scopes: self.scopes.drop_last(),
            symbols: match self.symbols.outer {
                Some(outer) => *outer,
                None => self.symbols,
            },
            ..self
        }
    }

    /// The state after the instruction that pushes what `symbol` stands
    /// for.
    pub open spec fn load_symbol(self, symbol: SymbolView) -> CompilerView {
        match symbol.scope {
            SymbolScope::Global => self.emit(Opcode::OpGetGlobal, seq![symbol.index as u64]),
            SymbolScope::Local => self.emit(Opcode::OpGetLocal, seq![symbol.index as u64]),
            SymbolScope::Builtin => self.emit(Opcode::OpGetBuiltin, seq![symbol.index as u64]),
            SymbolScope::Free => self.emit(Opcode::OpGetFree, seq![symbol.index as u64]),
            SymbolScope::Function => self.emit(Opcode::OpCurrentClosure, Seq::empty()),
        }
    }

    /// The state after the instructions that push what the symbols from
    /// index `i` on stand for.
    pub open spec fn load_symbols(self, symbols: Seq<SymbolView>, i: int) -> CompilerView
        decreases symbols.len() - i,
    {
        if 0 <= i < symbols.len() {
            self.load_symbol(symbols[i]).load_symbols(symbols, i + 1)
        } else {
            self
        }
    }

    /// The state after `name` was defined in the current scope. A scope
    /// cannot hold more definitions than a machine word counts.
    pub open spec fn define(self, name: Seq<char>) -> Result<CompilerView, Seq<char>> {
        if self.symbols.num_definitions == usize::MAX {
            Err("too many definitions"@)
        } else {
            Ok(self.with_symbols(self.symbols.define(name)))
        }
    }

    /// The state after the names from index `i` on were defined, in
    /// order.
    pub open spec fn define_all(self, names: Seq<Seq<char>>, i: int) -> Result<
        CompilerView,
        Seq<char>,
    >
        decreases names.len() - i,
    {
        if 0 <= i < names.len() {
            match self.define(names[i]) {
                Ok(next) => next.define_all(names, i + 1),
                Err(e) => Err(e),
            }
        } else {
            Ok(self)
        }
    }

    /// The state after the instruction that stores the top of the stack in
    /// the variable that `symbol` stands for.
    pub open spec fn store_symbol(self, symbol: SymbolView) -> CompilerView {
        if symbol.scope == SymbolScope::Global {
            self.emit(Opcode::OpSetGlobal, seq![symbol.index as u64])
        } else {
            self.emit(Opcode::OpSetLocal, seq![symbol.index as u64])
        }
    }
}

/// Emits `op` after what came before did not fail.
pub open spec fn then_emit(r: Result<CompilerView, Seq<char>>, op: Opcode, operands: Seq<u64>)
    -> Result<CompilerView, Seq<char>> {
    match r {
        Ok(c) => Ok(c.emit(op, operands)),
        Err(e) => Err(e),
    }
}

/// The state after the expressions from index `i` on were compiled, in
/// order.
pub open spec fn compile_exprs(c: CompilerView, exprs: Seq<ExpressionView>, i: int) -> Result<
    CompilerView,
    Seq<char>,
>
    decreases exprs, (exprs.len() - i) as nat,
{
    if 0 <= i < exprs.len() {
        match compile_expr(c, exprs[i]) {
            Ok(next) => compile_exprs(next, exprs, i + 1),
            Err(e) => Err(e),
        }
    } else {
        Ok(c)
    }
}

/// The state after the pairs of a hash literal were compiled, key then
/// value, in the order that `order` gives from its index `i` on.
pub open spec fn compile_pairs(
    c: CompilerView,
    pairs: Seq<(ExpressionView, ExpressionView)>,
    order: Seq<int>,
    i: int,
) -> Result<CompilerView, Seq<char>>
    decreases pairs, (order.len() - i) as nat,
{
    if 0 <= i < order.len() {
        if 0 <= order[i] < pairs.len() {
            match compile_expr(c, pairs[order[i]].0) {
                Ok(with_key) => match compile_expr(with_key, pairs[order[i]].1) {
                    Ok(next) => compile_pairs(next, pairs, order, i + 1),
                    Err(e) => Err(e),
                },
                Err(e) => Err(e),
            }
        } else {
            compile_pairs(c, pairs, order, i + 1)
        }
    } else {
        Ok(c)
    }
}

/// The state after the statements from index `i` on were compiled, in
/// order.
pub open spec fn compile_stmts(c: CompilerView, stmts: Seq<StatementView>, i: int) -> Result<
    CompilerView,
    Seq<char>,
>
    decreases stmts, (stmts.len() - i) as nat,
{
    if 0 <= i < stmts.len() {
        match compile_stmt(c, stmts[i]) {
            Ok(next) => compile_stmts(next, stmts, i + 1),
            Err(e) => Err(e),
        }
    } else {
        Ok(c)
    }
}

/// A binary expression: the operands, then the operator's instruction.
/// `<` is compiled as `>` with the operands exchanged.
pub open spec fn compile_infix(c: CompilerView, e: ExpressionView) -> Result<
    CompilerView,
    Seq<char>,
>
    decreases e, 0nat,
{
    match e {
        ExpressionView::Infix(op, left, right) => if op == TokenView::Lt {
            match compile_expr(c, *right) {
                Ok(c1) => then_emit(compile_expr(c1, *left), Opcode::OpGreaterThan, Seq::empty()),
                Err(e) => Err(e),
            }
        } else {
            match compile_expr(c, *left) {
                Ok(c1) => match compile_expr(c1, *right) {
                    Ok(c2) => match infix_opcode(op) {
                        Some(opcode) => Ok(c2.emit(opcode, Seq::empty())),
                        None => Err(unknown_operator_text(op)),
                    },
                    Err(e) => Err(e),
                },
                Err(e) => Err(e),
            }
        },
        _ => Ok(c),
    }
}

/// The block of a branch, with a trailing `OpPop` cut off so that the
/// branch leaves its value on the stack.
pub open spec fn compile_branch(c: CompilerView, block: StatementView) -> Result<
    CompilerView,
    Seq<char>,
>
    decreases block, 2nat,
{
    match compile_stmt(c, block) {
        Ok(next) => Ok(next.strip_pop()),
        Err(e) => Err(e),
    }
}

/// A conditional: the condition, a jump over the consequence that is
/// taken when the condition is not true, the consequence, a jump over the
/// alternative, and the alternative or an `OpNull` in its place. Both
/// jumps are emitted with the target 9999 and given their real targets
/// once these are known.
pub open spec fn compile_if(c: CompilerView, e: ExpressionView) -> Result<CompilerView, Seq<char>>
    decreases e, 0nat,
{
    match e {
        ExpressionView::If(condition, consequence, alternative) => match compile_expr(
            c,
            *condition,
        ) {
            Err(e) => Err(e),
            Ok(c1) => {
                let not_truthy_at = c1.code().len() as int;
                match compile_branch(c1.emit(Opcode::OpJumpNotTruthy, seq![9999u64]), *consequence) {
                    Err(e) => Err(e),
                    Ok(c2) => {
                        let jump_at = c2.code().len() as int;
                        let c3 = c2.emit(Opcode::OpJump, seq![9999u64]);
                        let c4 = c3.change_operand(not_truthy_at, c3.code().len() as u64);
                        let done = match alternative {
                            Some(block) => compile_branch(c4, *block),
                            None => Ok(c4.emit(Opcode::OpNull, Seq::empty())),
                        };
                        match done {
                            Err(e) => Err(e),
                            Ok(c5) => Ok(c5.change_operand(jump_at, c5.code().len() as u64)),
                        }
                    },
                }
            },
        },
        _ => Ok(c),
    }
}

/// The end of a function's body: a trailing `OpPop` becomes
/// `OpReturnValue`, and a body that does not end in `OpReturnValue` gets an
/// `OpReturn`.
pub open spec fn end_body(c: CompilerView) -> CompilerView {
    let replaced = if c.last_is(Opcode::OpPop) {
        c.replace_last_pop_with_return()
    } else {
        c
    };
    if replaced.last_is(Opcode::OpReturnValue) {
        replaced
    } else {
        replaced.emit(Opcode::OpReturn, Seq::empty())
    }
}

/// The compiled function that the current scope has become, and the
/// closure instruction for it in the scope around: the values that the
/// function captured are pushed in the order of their capture, then
/// `OpClosure` names the function's constant and their number.
pub open spec fn close_function(c: CompilerView, num_parameters: usize) -> CompilerView {
    let func = FunctionView {
        instructions: c.code(),
        num_locals: c.symbols.num_definitions,
        num_parameters,
    };
    let free = c.symbols.free_symbols;
    let outside = c.leave_scope().load_symbols(free, 0);
    outside.add_constant(Value::CompiledFunction(func)).emit(
        Opcode::OpClosure,
        seq![outside.constants.len() as u64, free.len() as u64],
    )
}

/// A function literal: its body is compiled in a scope of its own, in
/// which its own name, if it has one, and then its parameters are defined.
pub open spec fn compile_function(c: CompilerView, e: ExpressionView) -> Result<
    CompilerView,
    Seq<char>,
>
    decreases e, 0nat,
{
    match e {
        ExpressionView::Function(params, body, own_name) => {
            let inside = c.enter_scope();
            let named = match own_name {
                Some(name) => inside.with_symbols(inside.symbols.define_function_name(name)),
                None => inside,
            };
            match named.define_all(params, 0) {
                Err(e) => Err(e),
                Ok(ready) => match compile_stmt(ready, *body) {
                    Err(e) => Err(e),
                    Ok(compiled) => Ok(close_function(end_body(compiled), params.len() as usize)),
                },
            }
        },
        _ => Ok(c),
    }
}

/// A slice expression: the collection, then each bound or an `OpNull` in
/// its place, then `OpSliceIndex`.
pub open spec fn compile_slice(c: CompilerView, e: ExpressionView) -> Result<
    CompilerView,
    Seq<char>,
>
    decreases e, 0nat,
{
    match e {
        ExpressionView::SliceIndex(left, start, stop) => match compile_expr(c, *left) {
            Err(e) => Err(e),
            Ok(c1) => {
                let with_start = match start {
                    Some(start) => compile_expr(c1, *start),
                    None => Ok(c1.emit(Opcode::OpNull, Seq::empty())),
                };
                match with_start {
                    Err(e) => Err(e),
                    Ok(c2) => {
                        let with_stop = match stop {
                            Some(stop) => compile_expr(c2, *stop),
                            None => Ok(c2.emit(Opcode::OpNull, Seq::empty())),
                        };
                        then_emit(with_stop, Opcode::OpSliceIndex, Seq::empty())
                    },
                }
            },
        },
        _ => Ok(c),
    }
}

/// The state after an expression was compiled: instructions that leave
/// the expression's value on top of the stack.
pub open spec fn compile_expr(c: CompilerView, e: ExpressionView) -> Result<CompilerView, Seq<char>>
    decreases e, 1nat,
{
    match e {
        ExpressionView::Integer(value) => Ok(
            c.add_constant(Value::Integer(value)).emit(
                Opcode::OpConstant,
                seq![c.constants.len() as u64],
            ),
        ),
        ExpressionView::Boolean(value) => Ok(
            c.emit(
                if value {
                    Opcode::OpTrue
                } else {
                    Opcode::OpFalse
                },
                Seq::empty(),
            ),
        ),
        ExpressionView::Str(value) => Ok(
            c.add_constant(Value::Str(value)).emit(
                Opcode::OpConstant,
                seq![c.constants.len() as u64],
            ),
        ),
        ExpressionView::Hash(pairs) => then_emit(
            compile_pairs(c, pairs, sort_order(key_texts(pairs), pairs.len()), 0),
            Opcode::OpHash,
            seq![(pairs.len() as u64).wrapping_mul(2)],
        ),
        ExpressionView::Array(elements) => then_emit(
            compile_exprs(c, elements, 0),
            Opcode::OpArray,
            seq![elements.len() as u64],
        ),
        ExpressionView::Infix(_, _, _) => compile_infix(c, e),
        ExpressionView::Prefix(op, right) => match compile_expr(c, *right) {
            Ok(c1) => match prefix_opcode(op) {
                Some(opcode) => Ok(c1.emit(opcode, Seq::empty())),
                None => Err(unknown_operator_text(op)),
            },
            Err(e) => Err(e),
        },
        ExpressionView::If(_, _, _) => compile_if(c, e),
        ExpressionView::Identifier(name) => {
            let (found, symbols) = c.symbols.resolve(name);
            match found {
                Some(symbol) => Ok(c.with_symbols(symbols).load_symbol(symbol)),
                None => Err(undefined_variable_text(name)),
            }
        },
        ExpressionView::Index(left, index) => match compile_expr(c, *left) {
            Ok(c1) => then_emit(compile_expr(c1, *index), Opcode::OpIndex, Seq::empty()),
            Err(e) => Err(e),
        },
        ExpressionView::SliceIndex(_, _, _) => compile_slice(c, e),
        ExpressionView::Function(_, _, _) => compile_function(c, e),
        ExpressionView::Call(function, args) => match compile_expr(c, *function) {
            Ok(c1) => then_emit(
                compile_exprs(c1, args, 0),
                Opcode::OpCall,
                seq![args.len() as u64],
            ),
            Err(e) => Err(e),
        },
    }
}

/// A `let`: the value, then the instruction that stores it. The name is
/// defined before the value is compiled where the value is a function that
/// carries the name, and after it otherwise.
pub open spec fn compile_let(c: CompilerView, s: StatementView) -> Result<CompilerView, Seq<char>>
    decreases s, 0nat,
{
    match s {
        StatementView::Let(name, value) => if binds_itself(name, value) {
            match c.define(name) {
                Err(e) => Err(e),
                Ok(c1) => match compile_expr(c1, value) {
                    Err(e) => Err(e),
                    Ok(c2) => Ok(c2.store_symbol(c.symbols.defined(name))),
                },
            }
        } else {
            match compile_expr(c, value) {
                Err(e) => Err(e),
                Ok(c1) => match c1.define(name) {
                    Err(e) => Err(e),
                    Ok(c2) => Ok(c2.store_symbol(c1.symbols.defined(name))),
                },
            }
        },
        _ => Ok(c),
    }
}

/// The state after a statement was compiled.
pub open spec fn compile_stmt(c: CompilerView, s: StatementView) -> Result<CompilerView, Seq<char>>
    decreases s, 1nat,
{
    match s {
        StatementView::Expression(value) => then_emit(
            compile_expr(c, value),
            Opcode::OpPop,
            Seq::empty(),
        ),
        StatementView::Block(statements) => compile_stmts(c, statements, 0),
        StatementView::Let(_, _) => compile_let(c, s),
        StatementView::Return(value) => then_emit(
            compile_expr(c, value),
            Opcode::OpReturnValue,
            Seq::empty(),
        ),
    }
}

} // verus!
