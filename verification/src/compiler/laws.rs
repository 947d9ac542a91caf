//! Laws of the compiler's output: where the instructions of a scope start,
//! where its jumps lead, and which local slots its instructions use.

use crate::code::{make_spec, u16_of, Opcode};
use crate::compiler::model::{
    binds_itself, close_function, compile_branch, compile_expr, compile_exprs, compile_function,
    compile_if, compile_infix, compile_let, compile_pairs, compile_slice, compile_stmt,
    compile_stmts, end_body, infix_opcode, key_texts, prefix_opcode, sort_order, with_builtins,
    CompilerView, Emitted, ScopeView,
};
use crate::compiler::symbol_table::{SymbolScope, SymbolView, TableView};
use crate::lexer::token::TokenView;
use crate::object::{Builtin, FunctionView, Value};
use crate::parser::ast::{ExpressionView, StatementView};
use vstd::prelude::*;

verus! {

/// Whether instructions lie end to end from offset `from` to offset `to`.
pub open spec fn decodes(code: Seq<u8>, from: int, to: int) -> bool
    decreases to - from,
{
    if from >= to {
        from == to
    } else if from < 0 || to > code.len() {
        false
    } else {
        match Opcode::of_byte(code[from]) {
            Some(op) => from + op.length() <= to && decodes(code, from + op.length(), to),
            None => false,
        }
    }
}

/// Whether an instruction of `code` starts at `at`, or `code` ends there
/// with a whole instruction before.
pub open spec fn boundary(code: Seq<u8>, at: int) -> bool {
    0 <= at <= code.len() && decodes(code, 0, at)
}

/// Whether a byte is the opcode of a jump.
pub open spec fn is_jump(byte: u8) -> bool {
    byte == Opcode::OpJump.byte() || byte == Opcode::OpJumpNotTruthy.byte()
}

/// Whether a byte is the opcode of an instruction that reads or writes a
/// local.
pub open spec fn is_local(byte: u8) -> bool {
    byte == Opcode::OpGetLocal.byte() || byte == Opcode::OpSetLocal.byte()
}

/// Where the jump at `at` leads.
pub open spec fn jump_target(code: Seq<u8>, at: int) -> int {
    u16_of(code[at + 1], code[at + 2]) as int
}

/// Whether an instruction starts at `at`.
pub open spec fn instruction_at(code: Seq<u8>, at: int) -> bool {
    boundary(code, at) && at < code.len()
}

/// Whether every jump of `code` that is not in `pending` leads to the
/// start of an instruction at or before `limit`, or to `limit` itself
/// where `code` has a boundary.
pub open spec fn jumps_ok(code: Seq<u8>, pending: Set<int>, limit: int) -> bool {
    forall|at: int|
        #[trigger] instruction_at(code, at) && is_jump(code[at]) && !pending.contains(at)
            ==> boundary(code, jump_target(code, at)) && jump_target(code, at) <= limit
}

/// Whether every instruction of `code` that reads or writes a local names
/// one of the first `slots` locals.
pub open spec fn locals_ok(code: Seq<u8>, slots: int) -> bool {
    forall|at: int|
        #[trigger] instruction_at(code, at) && is_local(code[at]) ==> at + 1 < code.len()
            && code[at + 1] < slots
}

/// Instructions that lie end to end from `a` to `b` and from `b` to `c`
/// lie end to end from `a` to `c`.
pub proof fn lemma_decodes_join(code: Seq<u8>, a: int, b: int, c: int)
    requires
        decodes(code, a, b),
        decodes(code, b, c),
    ensures
        decodes(code, a, c),
    decreases b - a,
{
    if a < b {
        let op = Opcode::of_byte(code[a])->Some_0;
        lemma_decodes_join(code, a + op.length(), b, c);
        lemma_decodes_order(code, b, c);
    }
}

/// Instructions lie from a smaller offset to a greater one, within the
/// code.
pub proof fn lemma_decodes_order(code: Seq<u8>, a: int, b: int)
    requires
        decodes(code, a, b),
    ensures
        a <= b,
        a < b ==> 0 <= a && b <= code.len(),
    decreases b - a,
{
}

/// Whether instructions lie end to end between two offsets depends on the
/// bytes between them only.
pub proof fn lemma_decodes_agree(one: Seq<u8>, other: Seq<u8>, a: int, b: int)
    requires
        0 <= a,
        b <= one.len(),
        b <= other.len(),
        forall|i: int| a <= i < b ==> one[i] == other[i],
    ensures
        decodes(one, a, b) == decodes(other, a, b),
    decreases b - a,
{
    if a < b {
        match Opcode::of_byte(one[a]) {
            Some(op) => {
                if a + op.length() <= b {
                    lemma_decodes_agree(one, other, a + op.length(), b);
                }
            },
            None => {},
        }
    }
}

/// Of two starts of instructions, the later lies behind the whole
/// instruction at the earlier.
pub proof fn lemma_starts_apart(code: Seq<u8>, from: int, a: int, b: int)
    requires
        decodes(code, from, a),
        decodes(code, from, b),
        a < b,
    ensures
        Opcode::of_byte(code[a]) is Some,
        a + Opcode::of_byte(code[a])->Some_0.length() <= b,
        decodes(code, a, b),
    decreases a - from,
{
    lemma_decodes_order(code, from, a);
    if from < a {
        let op = Opcode::of_byte(code[from])->Some_0;
        lemma_starts_apart(code, from + op.length(), a, b);
    }
}

/// An encoded instruction has its opcode's length and starts with its
/// opcode's byte.
pub proof fn lemma_make_length(op: Opcode, operands: Seq<u64>)
    ensures
        make_spec(op, operands).len() == op.length(),
        make_spec(op, operands)[0] == op.byte(),
{
    reveal_with_fuel(crate::code::encode_operands, 4);
    let w = op.widths();
    assert(crate::code::encode_operands(w, operands, 0).len() + 1 == op.length());
}

/// The length of the current scope's instructions.
pub open spec fn scope_len(c: CompilerView) -> int {
    c.code().len() as int
}

/// Whether table `u` has the scopes of table `t` around it, each with at
/// least as many definitions.
pub open spec fn covers(t: TableView, u: TableView) -> bool
    decreases t,
{
    &&& t.num_definitions <= u.num_definitions
    &&& match t.outer {
        Some(outer) => u.outer is Some && covers(*outer, *u.outer->Some_0),
        None => u.outer is None,
    }
}

/// Whether the locals that a table and the tables around it know have
/// numbers below the number of definitions of their scope: the locals of
/// the table itself, and the locals of the scope around that it captured.
pub open spec fn table_ok(t: TableView) -> bool
    decreases t,
{
    &&& forall|name: Seq<char>|
        #[trigger] t.store.contains_key(name) && t.store[name].scope == SymbolScope::Local
            ==> t.store[name].index < t.num_definitions
    &&& forall|i: int|
        0 <= i < t.free_symbols.len() && (#[trigger] t.free_symbols[i]).scope
            == SymbolScope::Local ==> t.outer is Some && t.free_symbols[i].index
            < t.outer->Some_0.num_definitions
    &&& match t.outer {
        Some(outer) => table_ok(*outer),
        None => true,
    }
}

/// A table covers itself.
pub proof fn lemma_covers_itself(t: TableView)
    ensures
        covers(t, t),
    decreases t,
{
    match t.outer {
        Some(outer) => lemma_covers_itself(*outer),
        None => {},
    }
}

/// What covers a table that covers a third table covers the third.
pub proof fn lemma_covers_chain(t: TableView, u: TableView, v: TableView)
    requires
        covers(t, u),
        covers(u, v),
    ensures
        covers(t, v),
    decreases t,
{
    match t.outer {
        Some(outer) => lemma_covers_chain(*outer, *u.outer->Some_0, *v.outer->Some_0),
        None => {},
    }
}

/// Resolving a name defines nothing: the tables keep their numbers of
/// definitions, and a local that is found is one of the table itself.
pub proof fn lemma_resolve(t: TableView, name: Seq<char>)
    ensures
        covers(t, t.resolve(name).1),
        t.resolve(name).1.num_definitions == t.num_definitions,
        table_ok(t) ==> table_ok(t.resolve(name).1),
        table_ok(t) && t.resolve(name).0 is Some && t.resolve(name).0->Some_0.scope
            == SymbolScope::Local ==> t.resolve(name).0->Some_0.index < t.num_definitions,
    decreases t,
{
    lemma_covers_itself(t);
    if !t.store.contains_key(name) {
        match t.outer {
            None => {},
            Some(outer) => {
                lemma_resolve(*outer, name);
                let (found, outer_after) = outer.resolve(name);
                let table = TableView { outer: Some(Box::new(outer_after)), ..t };
                assert(covers(t, table));
                match found {
                    None => {
                        assert(table_ok(t) ==> table_ok(table));
                    },
                    Some(symbol) => {
                        let after = table.define_free(symbol);
                        assert(covers(t, after));
                        if table_ok(t) {
                            assert(table_ok(table));
                            if !(symbol.scope == SymbolScope::Global || symbol.scope
                                == SymbolScope::Builtin) {
                                assert forall|n: Seq<char>|
                                    #[trigger] after.store.contains_key(n) && after.store[n].scope
                                        == SymbolScope::Local implies after.store[n].index
                                    < after.num_definitions by {
                                    if n != symbol.name {
                                        assert(table.store.contains_key(n));
                                    }
                                }
                                assert forall|i: int|
                                    0 <= i < after.free_symbols.len() && (
                                    #[trigger] after.free_symbols[i]).scope
                                        == SymbolScope::Local implies after.outer is Some
                                    && after.free_symbols[i].index
                                    < after.outer->Some_0.num_definitions by {
                                    if i < table.free_symbols.len() {
                                        assert(table.free_symbols[i] == after.free_symbols[i]);
                                    }
                                }
                                assert(table_ok(after));
                            }
                        }
                    },
                }
            },
        }
    }
}

/// Whether the last instruction of `d` was emitted behind everything that
/// `c` holds, and, where it is an `OpPop`, the instruction before it too.
pub open spec fn fresh_last(c: CompilerView, d: CompilerView) -> bool {
    &&& d.scope().last is Some
    &&& scope_len(c) <= d.scope().last->Some_0.position < scope_len(d)
    &&& d.scope().last->Some_0.opcode == Opcode::OpPop ==> {
        &&& d.scope().previous is Some
        &&& scope_len(c) <= d.scope().previous->Some_0.position < d.scope().last->Some_0.position
        &&& d.scope().previous->Some_0.opcode != Opcode::OpPop
    }
}

/// Whether state `d` is state `c` with more compiled: the scopes around
/// the current one are untouched, the current scope has kept what it held,
/// the constants have kept their indices, and the symbol tables cover the
/// earlier ones.
pub open spec fn grows(c: CompilerView, d: CompilerView) -> bool {
    &&& c.scopes.len() >= 1
    &&& d.scopes.len() == c.scopes.len()
    &&& d.scopes.drop_last() == c.scopes.drop_last()
    &&& scope_len(c) <= scope_len(d)
    &&& d.code().subrange(0, scope_len(c)) == c.code()
    &&& (d.scope() == c.scope() || fresh_last(c, d))
    &&& c.constants.len() <= d.constants.len()
    &&& d.constants.subrange(0, c.constants.len() as int) == c.constants
    &&& covers(c.symbols, d.symbols)
    &&& (table_ok(c.symbols) ==> table_ok(d.symbols))
}

/// Whether `d` is `c` with more compiled that ends in an instruction other
/// than `OpPop`, as the code of an expression does.
pub open spec fn grows_expr(c: CompilerView, d: CompilerView) -> bool {
    grows(c, d) && fresh_last(c, d) && !d.last_is(Opcode::OpPop)
}

pub proof fn lemma_grows_itself(c: CompilerView)
    requires
        c.scopes.len() >= 1,
    ensures
        grows(c, c),
{
    lemma_covers_itself(c.symbols);
    assert(c.code().subrange(0, scope_len(c)) =~= c.code());
    assert(c.constants.subrange(0, c.constants.len() as int) =~= c.constants);
}

pub proof fn lemma_grows_chain(a: CompilerView, b: CompilerView, c: CompilerView)
    requires
        grows(a, b),
        grows(b, c),
    ensures
        grows(a, c),
        fresh_last(b, c) ==> fresh_last(a, c),
        c.scope() == b.scope() && fresh_last(a, b) ==> fresh_last(a, c),
{
    lemma_covers_chain(a.symbols, b.symbols, c.symbols);
    assert(c.code().subrange(0, scope_len(a)) =~= c.code().subrange(0, scope_len(b)).subrange(
        0,
        scope_len(a),
    ));
    assert(c.constants.subrange(0, a.constants.len() as int) =~= c.constants.subrange(
        0,
        b.constants.len() as int,
    ).subrange(0, a.constants.len() as int));
}

/// More compiled behind the code of an expression, ending in an
/// instruction other than `OpPop`, is again as the code of an expression.
pub proof fn lemma_expr_chain(a: CompilerView, b: CompilerView, c: CompilerView)
    requires
        grows_expr(a, b) || (grows(a, b) && fresh_last(b, c)),
        grows(b, c),
        !c.last_is(Opcode::OpPop),
    ensures
        grows_expr(a, c),
{
    lemma_grows_chain(a, b, c);
}

/// The state with another current scope, seen scope by scope.
pub proof fn lemma_with_scope(c: CompilerView, scope: ScopeView)
    requires
        c.scopes.len() >= 1,
    ensures
        c.with_scope(scope).scopes.len() == c.scopes.len(),
        c.with_scope(scope).scopes.drop_last() == c.scopes.drop_last(),
        c.with_scope(scope).scope() == scope,
        c.with_scope(scope).symbols == c.symbols,
        c.with_scope(scope).constants == c.constants,
{
    assert(c.with_scope(scope).scopes.drop_last() =~= c.scopes.drop_last());
}

/// An instruction other than `OpPop` that is emitted.
pub proof fn lemma_emit(c: CompilerView, op: Opcode, operands: Seq<u64>)
    requires
        c.scopes.len() >= 1,
        op != Opcode::OpPop,
    ensures
        grows_expr(c, c.emit(op, operands)),
        scope_len(c.emit(op, operands)) == scope_len(c) + op.length(),
        c.emit(op, operands).scope().last == Some(Emitted { opcode: op, position: scope_len(c) }),
        c.emit(op, operands).scope().previous == c.scope().last,
{
    let d = c.emit(op, operands);
    lemma_make_length(op, operands);
    lemma_with_scope(
        c,
        ScopeView {
            instructions: c.code() + make_spec(op, operands),
            last: Some(Emitted { opcode: op, position: c.code().len() as int }),
            previous: c.scope().last,
        },
    );
    lemma_covers_itself(c.symbols);
    assert(d.code().subrange(0, scope_len(c)) =~= c.code());
    assert(d.constants.subrange(0, c.constants.len() as int) =~= c.constants);
}

/// An `OpPop` that is emitted behind the code of an expression.
pub proof fn lemma_emit_pop(a: CompilerView, c: CompilerView)
    requires
        grows_expr(a, c),
    ensures
        grows(a, c.emit(Opcode::OpPop, Seq::empty())),
        fresh_last(a, c.emit(Opcode::OpPop, Seq::empty())),
{
    let d = c.emit(Opcode::OpPop, Seq::empty());
    lemma_make_length(Opcode::OpPop, Seq::empty());
    lemma_with_scope(
        c,
        ScopeView {
            instructions: c.code() + make_spec(Opcode::OpPop, Seq::empty()),
            last: Some(Emitted { opcode: Opcode::OpPop, position: c.code().len() as int }),
            previous: c.scope().last,
        },
    );
    assert(d.code().subrange(0, scope_len(a)) =~= c.code().subrange(0, scope_len(a)));
    assert(d.constants.subrange(0, a.constants.len() as int) =~= c.constants.subrange(
        0,
        a.constants.len() as int,
    ));
}

/// A trailing `OpPop` that is cut off, behind a state that did not end in
/// one.
pub proof fn lemma_strip(a: CompilerView, c: CompilerView)
    requires
        grows(a, c),
        !a.last_is(Opcode::OpPop),
    ensures
        grows(a, c.strip_pop()),
        !c.strip_pop().last_is(Opcode::OpPop),
        c.strip_pop().scope() == a.scope() || fresh_last(a, c.strip_pop()),
        c.last_is(Opcode::OpPop) ==> fresh_last(a, c),
{
    if c.last_is(Opcode::OpPop) {
        let last = c.scope().last->Some_0;
        let d = c.remove_last();
        lemma_with_scope(
            c,
            ScopeView {
                instructions: c.code().subrange(0, last.position),
                last: c.scope().previous,
                previous: c.scope().previous,
            },
        );
        assert(d.code().subrange(0, scope_len(a)) =~= c.code().subrange(0, scope_len(a)));
    }
}

/// An instruction that is overwritten behind everything that `a` holds.
pub proof fn lemma_replace(a: CompilerView, c: CompilerView, position: int, bytes: Seq<u8>)
    requires
        grows(a, c),
        scope_len(a) <= position,
    ensures
        grows(a, c.replace_instruction(position, bytes)),
        c.replace_instruction(position, bytes).scope().last == c.scope().last,
        c.replace_instruction(position, bytes).scope().previous == c.scope().previous,
        scope_len(c.replace_instruction(position, bytes)) == scope_len(c),
{
    let d = c.replace_instruction(position, bytes);
    if 0 <= position && position + bytes.len() <= c.code().len() {
        lemma_with_scope(
            c,
            ScopeView {
                instructions: Seq::new(
                    c.code().len(),
                    |i: int|
                        if position <= i < position + bytes.len() {
                            bytes[i - position]
                        } else {
                            c.code()[i]
                        },
                ),
                ..c.scope()
            },
        );
        assert(d.code().subrange(0, scope_len(a)) =~= c.code().subrange(0, scope_len(a)));
        if c.scope() == a.scope() {
            assert(d.code() =~= c.code());
        }
    }
}

/// An operand that is changed behind everything that `a` holds.
pub proof fn lemma_change_operand(a: CompilerView, c: CompilerView, position: int, operand: u64)
    requires
        grows(a, c),
        scope_len(a) <= position,
    ensures
        grows(a, c.change_operand(position, operand)),
        c.change_operand(position, operand).scope().last == c.scope().last,
        c.change_operand(position, operand).scope().previous == c.scope().previous,
        scope_len(c.change_operand(position, operand)) == scope_len(c),
{
    if 0 <= position < c.code().len() {
        match Opcode::of_byte(c.code()[position]) {
            Some(op) => lemma_replace(a, c, position, make_spec(op, seq![operand])),
            None => {},
        }
    }
}

/// A constant that is added.
pub proof fn lemma_add_constant(c: CompilerView, value: Value)
    requires
        c.scopes.len() >= 1,
    ensures
        grows(c, c.add_constant(value)),
        c.add_constant(value).scope() == c.scope(),
        c.add_constant(value).scopes == c.scopes,
{
    lemma_grows_itself(c);
    let d = c.add_constant(value);
    assert(d.constants.subrange(0, c.constants.len() as int) =~= c.constants);
}

/// The instruction that pushes what a symbol stands for.
pub proof fn lemma_load_symbol(c: CompilerView, symbol: SymbolView)
    requires
        c.scopes.len() >= 1,
    ensures
        grows_expr(c, c.load_symbol(symbol)),
{
    match symbol.scope {
        SymbolScope::Global => lemma_emit(c, Opcode::OpGetGlobal, seq![symbol.index as u64]),
        SymbolScope::Local => lemma_emit(c, Opcode::OpGetLocal, seq![symbol.index as u64]),
        SymbolScope::Builtin => lemma_emit(c, Opcode::OpGetBuiltin, seq![symbol.index as u64]),
        SymbolScope::Free => lemma_emit(c, Opcode::OpGetFree, seq![symbol.index as u64]),
        SymbolScope::Function => lemma_emit(c, Opcode::OpCurrentClosure, Seq::empty()),
    }
}

/// The instructions that push what symbols stand for.
pub proof fn lemma_load_symbols(c: CompilerView, symbols: Seq<SymbolView>, i: int)
    requires
        c.scopes.len() >= 1,
    ensures
        grows(c, c.load_symbols(symbols, i)),
    decreases symbols.len() - i,
{
    if 0 <= i < symbols.len() {
        lemma_load_symbol(c, symbols[i]);
        lemma_load_symbols(c.load_symbol(symbols[i]), symbols, i + 1);
        lemma_grows_chain(c, c.load_symbol(symbols[i]), c.load_symbols(symbols, i));
    } else {
        lemma_grows_itself(c);
    }
}

/// The instruction that stores into the variable of a symbol.
pub proof fn lemma_store_symbol(c: CompilerView, symbol: SymbolView)
    requires
        c.scopes.len() >= 1,
    ensures
        grows_expr(c, c.store_symbol(symbol)),
{
    if symbol.scope == SymbolScope::Global {
        lemma_emit(c, Opcode::OpSetGlobal, seq![symbol.index as u64]);
    } else {
        lemma_emit(c, Opcode::OpSetLocal, seq![symbol.index as u64]);
    }
}

/// Another symbol table in place of the current one.
pub proof fn lemma_with_symbols(c: CompilerView, table: TableView)
    requires
        c.scopes.len() >= 1,
        covers(c.symbols, table),
        table_ok(c.symbols) ==> table_ok(table),
    ensures
        grows(c, c.with_symbols(table)),
        c.with_symbols(table).scopes == c.scopes,
{
    lemma_grows_itself(c);
}

/// A name that is defined in the current scope.
pub proof fn lemma_define(c: CompilerView, name: Seq<char>)
    requires
        c.scopes.len() >= 1,
        c.define(name) is Ok,
    ensures
        grows(c, c.define(name)->Ok_0),
        c.define(name)->Ok_0.scopes == c.scopes,
        c.define(name)->Ok_0.constants == c.constants,
        c.define(name)->Ok_0.symbols.num_definitions == c.symbols.num_definitions + 1,
        table_ok(c.symbols) ==> c.symbols.defined(name).scope == SymbolScope::Global
            || c.symbols.defined(name).index < c.define(name)->Ok_0.symbols.num_definitions,
{
    let t = c.symbols;
    let u = t.define(name);
    lemma_covers_itself(t);
    assert(covers(t, u));
    if table_ok(t) {
        assert forall|n: Seq<char>|
            #[trigger] u.store.contains_key(n) && u.store[n].scope
                == SymbolScope::Local implies u.store[n].index < u.num_definitions by {
            if n != name {
                assert(t.store.contains_key(n));
            }
        }
        assert(table_ok(u));
    }
    lemma_with_symbols(c, u);
}

/// Names that are defined in the current scope, one after the other.
pub proof fn lemma_define_all(c: CompilerView, names: Seq<Seq<char>>, i: int)
    requires
        c.scopes.len() >= 1,
        0 <= i <= names.len(),
        c.define_all(names, i) is Ok,
    ensures
        grows(c, c.define_all(names, i)->Ok_0),
        c.define_all(names, i)->Ok_0.scopes == c.scopes,
        c.define_all(names, i)->Ok_0.constants == c.constants,
        c.define_all(names, i)->Ok_0.symbols.num_definitions == c.symbols.num_definitions + (
        names.len() - i),
    decreases names.len() - i,
{
    if i < names.len() {
        lemma_define(c, names[i]);
        let next = c.define(names[i])->Ok_0;
        lemma_define_all(next, names, i + 1);
        lemma_grows_chain(c, next, c.define_all(names, i)->Ok_0);
    } else {
        lemma_grows_itself(c);
    }
}

/// The end of a function's body touches the body's scope only.
pub proof fn lemma_end_body_frame(c: CompilerView)
    requires
        c.scopes.len() >= 1,
    ensures
        end_body(c).scopes.len() == c.scopes.len(),
        end_body(c).scopes.drop_last() == c.scopes.drop_last(),
        end_body(c).symbols == c.symbols,
        end_body(c).constants == c.constants,
{
    lemma_grows_itself(c);
    let replaced = if c.last_is(Opcode::OpPop) {
        c.replace_last_pop_with_return()
    } else {
        c
    };
    if c.last_is(Opcode::OpPop) {
        let last = c.scope().last->Some_0;
        let bytes = make_spec(Opcode::OpReturnValue, Seq::empty());
        let r = c.replace_instruction(last.position, bytes);
        if 0 <= last.position && last.position + bytes.len() <= c.code().len() {
            lemma_with_scope(
                c,
                ScopeView {
                    instructions: Seq::new(
                        c.code().len(),
                        |i: int|
                            if last.position <= i < last.position + bytes.len() {
                                bytes[i - last.position]
                            } else {
                                c.code()[i]
                            },
                    ),
                    ..c.scope()
                },
            );
        }
        lemma_with_scope(
            r,
            ScopeView {
                last: Some(Emitted { opcode: Opcode::OpReturnValue, position: last.position }),
                ..r.scope()
            },
        );
    }
    if !replaced.last_is(Opcode::OpReturnValue) {
        lemma_emit(replaced, Opcode::OpReturn, Seq::empty());
    }
}

/// The opcode of a binary operator is no `OpPop`.
proof fn lemma_operator_opcodes(op: TokenView)
    ensures
        infix_opcode(op) is Some ==> infix_opcode(op)->Some_0 != Opcode::OpPop,
        prefix_opcode(op) is Some ==> prefix_opcode(op)->Some_0 != Opcode::OpPop,
{
}

/// Compiling expressions in order only adds to the state.
pub proof fn lemma_exprs_grows(c: CompilerView, exprs: Seq<ExpressionView>, i: int)
    requires
        c.scopes.len() >= 1,
        0 <= i,
        compile_exprs(c, exprs, i) is Ok,
    ensures
        grows(c, compile_exprs(c, exprs, i)->Ok_0),
    decreases exprs, (exprs.len() - i) as nat,
{
    if i < exprs.len() {
        lemma_expr_grows(c, exprs[i]);
        let next = compile_expr(c, exprs[i])->Ok_0;
        lemma_exprs_grows(next, exprs, i + 1);
        lemma_grows_chain(c, next, compile_exprs(c, exprs, i)->Ok_0);
    } else {
        lemma_grows_itself(c);
    }
}

/// Compiling the pairs of a hash literal only adds to the state.
pub proof fn lemma_pairs_grows(
    c: CompilerView,
    pairs: Seq<(ExpressionView, ExpressionView)>,
    order: Seq<int>,
    i: int,
)
    requires
        c.scopes.len() >= 1,
        0 <= i,
        compile_pairs(c, pairs, order, i) is Ok,
    ensures
        grows(c, compile_pairs(c, pairs, order, i)->Ok_0),
    decreases pairs, (order.len() - i) as nat,
{
    if i < order.len() {
        if 0 <= order[i] < pairs.len() {
            lemma_expr_grows(c, pairs[order[i]].0);
            let with_key = compile_expr(c, pairs[order[i]].0)->Ok_0;
            lemma_expr_grows(with_key, pairs[order[i]].1);
            let next = compile_expr(with_key, pairs[order[i]].1)->Ok_0;
            lemma_pairs_grows(next, pairs, order, i + 1);
            lemma_grows_chain(c, with_key, next);
            lemma_grows_chain(c, next, compile_pairs(c, pairs, order, i)->Ok_0);
        } else {
            lemma_pairs_grows(c, pairs, order, i + 1);
        }
    } else {
        lemma_grows_itself(c);
    }
}

/// Compiling statements in order only adds to the state.
pub proof fn lemma_stmts_grows(c: CompilerView, stmts: Seq<StatementView>, i: int)
    requires
        c.scopes.len() >= 1,
        0 <= i,
        compile_stmts(c, stmts, i) is Ok,
    ensures
        grows(c, compile_stmts(c, stmts, i)->Ok_0),
    decreases stmts, (stmts.len() - i) as nat,
{
    if i < stmts.len() {
        lemma_stmt_grows(c, stmts[i]);
        let next = compile_stmt(c, stmts[i])->Ok_0;
        lemma_stmts_grows(next, stmts, i + 1);
        lemma_grows_chain(c, next, compile_stmts(c, stmts, i)->Ok_0);
    } else {
        lemma_grows_itself(c);
    }
}

/// Compiling a binary expression adds code that ends in the operator's
/// instruction.
pub proof fn lemma_infix_grows(c: CompilerView, e: ExpressionView)
    requires
        c.scopes.len() >= 1,
        e is Infix,
        compile_infix(c, e) is Ok,
    ensures
        grows_expr(c, compile_infix(c, e)->Ok_0),
    decreases e, 0nat,
{
    match e {
        ExpressionView::Infix(op, left, right) => {
            lemma_operator_opcodes(op);
            if op == TokenView::Lt {
                lemma_expr_grows(c, *right);
                let c1 = compile_expr(c, *right)->Ok_0;
                lemma_expr_grows(c1, *left);
                let c2 = compile_expr(c1, *left)->Ok_0;
                lemma_emit(c2, Opcode::OpGreaterThan, Seq::empty());
                let d = c2.emit(Opcode::OpGreaterThan, Seq::empty());
                lemma_grows_chain(c, c1, c2);
                lemma_expr_chain(c, c2, d);
            } else {
                lemma_expr_grows(c, *left);
                let c1 = compile_expr(c, *left)->Ok_0;
                lemma_expr_grows(c1, *right);
                let c2 = compile_expr(c1, *right)->Ok_0;
                let opcode = infix_opcode(op)->Some_0;
                lemma_emit(c2, opcode, Seq::empty());
                let d = c2.emit(opcode, Seq::empty());
                lemma_grows_chain(c, c1, c2);
                lemma_expr_chain(c, c2, d);
            }
        },
        _ => {},
    }
}

/// Compiling a branch adds code that does not end in `OpPop`.
pub proof fn lemma_branch_grows(c: CompilerView, block: StatementView)
    requires
        c.scopes.len() >= 1,
        !c.last_is(Opcode::OpPop),
        compile_branch(c, block) is Ok,
    ensures
        grows(c, compile_branch(c, block)->Ok_0),
        !compile_branch(c, block)->Ok_0.last_is(Opcode::OpPop),
        compile_branch(c, block)->Ok_0.scope() == c.scope() || fresh_last(
            c,
            compile_branch(c, block)->Ok_0,
        ),
    decreases block, 2nat,
{
    lemma_stmt_grows(c, block);
    lemma_strip(c, compile_stmt(c, block)->Ok_0);
}

/// Compiling a conditional adds code that ends in the last instruction of
/// its second branch.
pub proof fn lemma_if_grows(c: CompilerView, e: ExpressionView)
    requires
        c.scopes.len() >= 1,
        e is If,
        compile_if(c, e) is Ok,
    ensures
        grows_expr(c, compile_if(c, e)->Ok_0),
    decreases e, 0nat,
{
    match e {
        ExpressionView::If(condition, consequence, alternative) => {
            lemma_expr_grows(c, *condition);
            let c1 = compile_expr(c, *condition)->Ok_0;
            let not_truthy_at = c1.code().len() as int;
            let c1e = c1.emit(Opcode::OpJumpNotTruthy, seq![9999u64]);
            lemma_emit(c1, Opcode::OpJumpNotTruthy, seq![9999u64]);
            lemma_branch_grows(c1e, *consequence);
            let c2 = compile_branch(c1e, *consequence)->Ok_0;
            let jump_at = c2.code().len() as int;
            let c3 = c2.emit(Opcode::OpJump, seq![9999u64]);
            lemma_emit(c2, Opcode::OpJump, seq![9999u64]);
            lemma_grows_chain(c1, c1e, c2);
            lemma_grows_chain(c1, c2, c3);
            let c4 = c3.change_operand(not_truthy_at, c3.code().len() as u64);
            lemma_change_operand(c1, c3, not_truthy_at, c3.code().len() as u64);
            let c5 = match alternative {
                Some(block) => compile_branch(c4, *block)->Ok_0,
                None => c4.emit(Opcode::OpNull, Seq::empty()),
            };
            match alternative {
                Some(block) => {
                    lemma_branch_grows(c4, *block);
                },
                None => {
                    lemma_emit(c4, Opcode::OpNull, Seq::empty());
                },
            }
            lemma_grows_chain(c1, c4, c5);
            let d = c5.change_operand(jump_at, c5.code().len() as u64);
            lemma_change_operand(c1, c5, jump_at, c5.code().len() as u64);
            lemma_grows_chain(c, c1, d);
            assert(d.scope().last == c5.scope().last);
            assert(c4.scope().last == Some(Emitted { opcode: Opcode::OpJump, position: jump_at }));
            assert(fresh_last(c, d));
        },
        _ => {},
    }
}

/// Compiling a slice expression adds code that ends in `OpSliceIndex`.
pub proof fn lemma_slice_grows(c: CompilerView, e: ExpressionView)
    requires
        c.scopes.len() >= 1,
        e is SliceIndex,
        compile_slice(c, e) is Ok,
    ensures
        grows_expr(c, compile_slice(c, e)->Ok_0),
    decreases e, 0nat,
{
    match e {
        ExpressionView::SliceIndex(left, start, stop) => {
            lemma_expr_grows(c, *left);
            let c1 = compile_expr(c, *left)->Ok_0;
            let c2 = match start {
                Some(start) => compile_expr(c1, *start)->Ok_0,
                None => c1.emit(Opcode::OpNull, Seq::empty()),
            };
            match start {
                Some(start) => {
                    lemma_expr_grows(c1, *start);
                },
                None => {
                    lemma_emit(c1, Opcode::OpNull, Seq::empty());
                },
            }
            let c3 = match stop {
                Some(stop) => compile_expr(c2, *stop)->Ok_0,
                None => c2.emit(Opcode::OpNull, Seq::empty()),
            };
            match stop {
                Some(stop) => {
                    lemma_expr_grows(c2, *stop);
                },
                None => {
                    lemma_emit(c2, Opcode::OpNull, Seq::empty());
                },
            }
            let d = c3.emit(Opcode::OpSliceIndex, Seq::empty());
            lemma_emit(c3, Opcode::OpSliceIndex, Seq::empty());
            lemma_grows_chain(c, c1, c2);
            lemma_grows_chain(c, c2, c3);
            lemma_expr_chain(c, c3, d);
        },
        _ => {},
    }
}

/// What closing a function's scope leaves in the scope around it.
pub proof fn lemma_close_function(c: CompilerView, inner: CompilerView, parameters: usize)
    requires
        c.scopes.len() >= 1,
        inner.scopes.len() == c.scopes.len() + 1,
        inner.scopes.drop_last() == c.scopes,
        inner.symbols.outer is Some,
        covers(c.symbols, *inner.symbols.outer->Some_0),
        table_ok(c.symbols) ==> table_ok(inner.symbols),
        c.constants.len() <= inner.constants.len(),
        inner.constants.subrange(0, c.constants.len() as int) == c.constants,
    ensures
        grows_expr(c, close_function(inner, parameters)),
{
    let func = FunctionView {
        instructions: inner.code(),
        num_locals: inner.symbols.num_definitions,
        num_parameters: parameters,
    };
    let free = inner.symbols.free_symbols;
    let left = inner.leave_scope();
    assert(left.scopes == c.scopes);
    lemma_grows_itself(c);
    assert(grows(c, left));
    let outside = left.load_symbols(free, 0);
    lemma_load_symbols(left, free, 0);
    let added = outside.add_constant(Value::CompiledFunction(func));
    lemma_add_constant(outside, Value::CompiledFunction(func));
    let d = added.emit(
        Opcode::OpClosure,
        seq![outside.constants.len() as u64, free.len() as u64],
    );
    lemma_emit(added, Opcode::OpClosure, seq![outside.constants.len() as u64, free.len() as u64]);
    lemma_grows_chain(c, left, outside);
    lemma_grows_chain(c, outside, added);
    lemma_expr_chain(c, added, d);
}

/// Compiling a function literal adds a constant and, in the current
/// scope, code that ends in `OpClosure`.
pub proof fn lemma_function_grows(c: CompilerView, e: ExpressionView)
    requires
        c.scopes.len() >= 1,
        e is Function,
        compile_function(c, e) is Ok,
    ensures
        grows_expr(c, compile_function(c, e)->Ok_0),
    decreases e, 0nat,
{
    match e {
        ExpressionView::Function(params, body, own_name) => {
            let inside = c.enter_scope();
            assert(inside.scopes.drop_last() =~= c.scopes);
            lemma_covers_itself(c.symbols);
            let named = match own_name {
                Some(name) => inside.with_symbols(inside.symbols.define_function_name(name)),
                None => inside,
            };
            assert(covers(inside.symbols, named.symbols)) by {
                lemma_covers_itself(inside.symbols);
            }
            assert(table_ok(inside.symbols) ==> table_ok(named.symbols)) by {
                match own_name {
                    Some(name) => {
                        let t = inside.symbols;
                        let u = t.define_function_name(name);
                        if table_ok(t) {
                            assert forall|n: Seq<char>|
                                #[trigger] u.store.contains_key(n) && u.store[n].scope
                                    == SymbolScope::Local implies u.store[n].index
                                < u.num_definitions by {
                                if n != name {
                                    assert(t.store.contains_key(n));
                                }
                            }
                        }
                    },
                    None => {},
                }
            }
            lemma_with_symbols(inside, named.symbols);
            lemma_define_all(named, params, 0);
            let ready = named.define_all(params, 0)->Ok_0;
            lemma_stmt_grows(ready, *body);
            let compiled = compile_stmt(ready, *body)->Ok_0;
            lemma_grows_chain(inside, named, ready);
            lemma_grows_chain(inside, ready, compiled);
            let ended = end_body(compiled);
            lemma_end_body_frame(compiled);
            assert(ended.scopes.drop_last() == c.scopes);
            lemma_close_function(c, ended, params.len() as usize);
        },
        _ => {},
    }
}

/// Compiling an expression adds code that ends in an instruction other
/// than `OpPop`, and touches nothing that was there.
pub proof fn lemma_expr_grows(c: CompilerView, e: ExpressionView)
    requires
        c.scopes.len() >= 1,
        compile_expr(c, e) is Ok,
    ensures
        grows_expr(c, compile_expr(c, e)->Ok_0),
    decreases e, 1nat,
{
    let d = compile_expr(c, e)->Ok_0;
    match e {
        ExpressionView::Integer(value) => {
            let c1 = c.add_constant(Value::Integer(value));
            lemma_add_constant(c, Value::Integer(value));
            lemma_emit(c1, Opcode::OpConstant, seq![c.constants.len() as u64]);
            lemma_expr_chain(c, c1, d);
        },
        ExpressionView::Boolean(value) => {
            lemma_emit(
                c,
                if value {
                    Opcode::OpTrue
                } else {
                    Opcode::OpFalse
                },
                Seq::empty(),
            );
        },
        ExpressionView::Str(value) => {
            let c1 = c.add_constant(Value::Str(value));
            lemma_add_constant(c, Value::Str(value));
            lemma_emit(c1, Opcode::OpConstant, seq![c.constants.len() as u64]);
            lemma_expr_chain(c, c1, d);
        },
        ExpressionView::Hash(pairs) => {
            let order = sort_order(key_texts(pairs), pairs.len());
            lemma_pairs_grows(c, pairs, order, 0);
            let c1 = compile_pairs(c, pairs, order, 0)->Ok_0;
            lemma_emit(c1, Opcode::OpHash, seq![(pairs.len() as u64).wrapping_mul(2)]);
            lemma_expr_chain(c, c1, d);
        },
        ExpressionView::Array(elements) => {
            lemma_exprs_grows(c, elements, 0);
            let c1 = compile_exprs(c, elements, 0)->Ok_0;
            lemma_emit(c1, Opcode::OpArray, seq![elements.len() as u64]);
            lemma_expr_chain(c, c1, d);
        },
        ExpressionView::Infix(_, _, _) => {
            lemma_infix_grows(c, e);
        },
        ExpressionView::Prefix(op, right) => {
            lemma_operator_opcodes(op);
            lemma_expr_grows(c, *right);
            let c1 = compile_expr(c, *right)->Ok_0;
            lemma_emit(c1, prefix_opcode(op)->Some_0, Seq::empty());
            lemma_expr_chain(c, c1, d);
        },
        ExpressionView::If(_, _, _) => {
            lemma_if_grows(c, e);
        },
        ExpressionView::Identifier(name) => {
            let (found, symbols) = c.symbols.resolve(name);
            lemma_resolve(c.symbols, name);
            lemma_with_symbols(c, symbols);
            let c1 = c.with_symbols(symbols);
            lemma_load_symbol(c1, found->Some_0);
            lemma_expr_chain(c, c1, d);
        },
        ExpressionView::Index(left, index) => {
            lemma_expr_grows(c, *left);
            let c1 = compile_expr(c, *left)->Ok_0;
            lemma_expr_grows(c1, *index);
            let c2 = compile_expr(c1, *index)->Ok_0;
            lemma_emit(c2, Opcode::OpIndex, Seq::empty());
            lemma_grows_chain(c, c1, c2);
            lemma_expr_chain(c, c2, d);
        },
        ExpressionView::SliceIndex(_, _, _) => {
            lemma_slice_grows(c, e);
        },
        ExpressionView::Function(_, _, _) => {
            lemma_function_grows(c, e);
        },
        ExpressionView::Call(function, args) => {
            lemma_expr_grows(c, *function);
            let c1 = compile_expr(c, *function)->Ok_0;
            lemma_exprs_grows(c1, args, 0);
            let c2 = compile_exprs(c1, args, 0)->Ok_0;
            lemma_emit(c2, Opcode::OpCall, seq![args.len() as u64]);
            lemma_grows_chain(c, c1, c2);
            lemma_expr_chain(c, c2, d);
        },
    }
}

/// Compiling a `let` adds code that ends in the instruction that stores
/// the value.
pub proof fn lemma_let_grows(c: CompilerView, s: StatementView)
    requires
        c.scopes.len() >= 1,
        s is Let,
        compile_let(c, s) is Ok,
    ensures
        grows(c, compile_let(c, s)->Ok_0),
        fresh_last(c, compile_let(c, s)->Ok_0),
        !compile_let(c, s)->Ok_0.last_is(Opcode::OpPop),
    decreases s, 0nat,
{
    match s {
        StatementView::Let(name, value) => {
            if binds_itself(name, value) {
                lemma_define(c, name);
                let c1 = c.define(name)->Ok_0;
                lemma_expr_grows(c1, value);
                let c2 = compile_expr(c1, value)->Ok_0;
                let d = c2.store_symbol(c.symbols.defined(name));
                lemma_store_symbol(c2, c.symbols.defined(name));
                lemma_grows_chain(c, c1, c2);
                lemma_expr_chain(c, c2, d);
            } else {
                lemma_expr_grows(c, value);
                let c1 = compile_expr(c, value)->Ok_0;
                lemma_define(c1, name);
                let c2 = c1.define(name)->Ok_0;
                let d = c2.store_symbol(c1.symbols.defined(name));
                lemma_store_symbol(c2, c1.symbols.defined(name));
                lemma_grows_chain(c, c1, c2);
                lemma_expr_chain(c, c2, d);
            }
        },
        _ => {},
    }
}

/// Compiling a statement only adds to the state.
pub proof fn lemma_stmt_grows(c: CompilerView, s: StatementView)
    requires
        c.scopes.len() >= 1,
        compile_stmt(c, s) is Ok,
    ensures
        grows(c, compile_stmt(c, s)->Ok_0),
    decreases s, 1nat,
{
    match s {
        StatementView::Expression(value) => {
            lemma_expr_grows(c, value);
            lemma_emit_pop(c, compile_expr(c, value)->Ok_0);
        },
        StatementView::Block(statements) => {
            lemma_stmts_grows(c, statements, 0);
        },
        StatementView::Let(_, _) => {
            lemma_let_grows(c, s);
        },
        StatementView::Return(value) => {
            lemma_expr_grows(c, value);
            let c1 = compile_expr(c, value)->Ok_0;
            lemma_emit(c1, Opcode::OpReturnValue, Seq::empty());
            lemma_grows_chain(c, c1, c1.emit(Opcode::OpReturnValue, Seq::empty()));
        },
    }
}

/// Whether a record names the instruction that `code` ends in.
pub open spec fn ends(code: Seq<u8>, record: Emitted) -> bool {
    &&& 0 <= record.position < code.len()
    &&& boundary(code, record.position)
    &&& code[record.position] == record.opcode.byte()
    &&& record.position + record.opcode.length() == code.len()
}

/// Whether a scope's instructions lie end to end, its record of the last
/// instruction names the one they end in, and, where that is an `OpPop`,
/// its record of the previous instruction names the one before.
pub open spec fn scope_ok(scope: ScopeView) -> bool {
    &&& boundary(scope.instructions, scope.instructions.len() as int)
    &&& match scope.last {
        Some(last) => ends(scope.instructions, last) && (last.opcode == Opcode::OpPop ==> {
            &&& scope.previous is Some
            &&& ends(scope.instructions.subrange(0, last.position), scope.previous->Some_0)
            &&& scope.previous->Some_0.opcode != Opcode::OpPop
        }),
        None => scope.instructions.len() == 0,
    }
}

/// The offset up to which jumps may lead: the start of a trailing
/// `OpPop`, which may still be cut off, or else the end.
pub open spec fn limit(scope: ScopeView) -> int {
    match scope.last {
        Some(last) => if last.opcode == Opcode::OpPop {
            last.position
        } else {
            scope.instructions.len() as int
        },
        None => scope.instructions.len() as int,
    }
}

/// Whether all positions of `pending` lie in code of length `len`.
pub open spec fn pending_in(pending: Set<int>, len: int) -> bool {
    forall|at: int| pending.contains(at) ==> 0 <= at < len
}

/// What holds of every compiled function: its instructions lie end to
/// end, it has a slot for each parameter, its instructions name slots that
/// it has, and, where its instructions fit the range of a jump's operand,
/// its jumps lead to instructions of its own or to its end.
pub open spec fn function_ok(f: FunctionView) -> bool {
    &&& boundary(f.instructions, f.instructions.len() as int)
    &&& f.num_parameters <= f.num_locals
    &&& locals_ok(f.instructions, f.num_locals as int)
    &&& (f.instructions.len() <= 0xFFFF ==> jumps_ok(
        f.instructions,
        Set::empty(),
        f.instructions.len() as int,
    ))
}

/// Whether every compiled function among the constants is as
/// `function_ok` says.
pub open spec fn constants_ok(constants: Seq<Value>) -> bool {
    forall|i: int|
        0 <= i < constants.len() && (#[trigger] constants[i]) is CompiledFunction ==> function_ok(
            constants[i]->CompiledFunction_0,
        )
}

/// What holds of the compiler's state between any two steps.
pub open spec fn sound(c: CompilerView) -> bool {
    &&& c.scopes.len() >= 1
    &&& scope_ok(c.scope())
    &&& (c.symbols.outer is Some ==> locals_ok(c.code(), c.symbols.num_definitions as int))
    &&& table_ok(c.symbols)
    &&& constants_ok(c.constants)
}

/// Whether the jumps of the current scope that are not pending lead to
/// instructions.
pub open spec fn jumps_sound(c: CompilerView, pending: Set<int>) -> bool {
    jumps_ok(c.code(), pending, limit(c.scope()))
}

/// Code that is longer has the boundaries of its beginning.
pub proof fn lemma_boundary_prefix(short: Seq<u8>, long: Seq<u8>, at: int)
    requires
        short.len() <= long.len(),
        long.subrange(0, short.len() as int) == short,
        0 <= at <= short.len(),
    ensures
        boundary(long, at) == boundary(short, at),
{
    assert forall|i: int| 0 <= i < at implies short[i] == long[i] by {
        assert(long.subrange(0, short.len() as int)[i] == long[i]);
    }
    lemma_decodes_agree(short, long, 0, at);
}

/// Code in which the instruction at `at` was exchanged for one of the same
/// length has its boundaries where it had them.
pub proof fn lemma_decodes_patch(
    one: Seq<u8>,
    other: Seq<u8>,
    at: int,
    width: int,
    from: int,
    to: int,
)
    requires
        one.len() == other.len(),
        0 <= at,
        at + width <= one.len(),
        Opcode::of_byte(one[at]) is Some,
        Opcode::of_byte(one[at])->Some_0.length() == width,
        Opcode::of_byte(other[at]) is Some,
        Opcode::of_byte(other[at])->Some_0.length() == width,
        forall|i: int| 0 <= i < one.len() && !(at <= i < at + width) ==> one[i] == other[i],
        0 <= from,
        decodes(one, from, at) || from >= at + width,
    ensures
        decodes(one, from, to) == decodes(other, from, to),
    decreases to - from,
{
    if from < to && to <= one.len() {
        if from == at {
            if at + width <= to {
                lemma_decodes_patch(one, other, at, width, at + width, to);
            }
        } else if from >= at + width {
            match Opcode::of_byte(one[from]) {
                Some(op) => {
                    if from + op.length() <= to {
                        lemma_decodes_patch(one, other, at, width, from + op.length(), to);
                    }
                },
                None => {},
            }
        } else {
            lemma_decodes_order(one, from, at);
            let op = Opcode::of_byte(one[from])->Some_0;
            if from + op.length() <= to {
                lemma_decodes_patch(one, other, at, width, from + op.length(), to);
            }
        }
    }
}

/// The same for boundaries.
pub proof fn lemma_boundary_patch(one: Seq<u8>, other: Seq<u8>, at: int, width: int, x: int)
    requires
        one.len() == other.len(),
        boundary(one, one.len() as int),
        instruction_at(one, at),
        at + width <= one.len(),
        Opcode::of_byte(one[at]) is Some,
        Opcode::of_byte(one[at])->Some_0.length() == width,
        Opcode::of_byte(other[at]) is Some,
        Opcode::of_byte(other[at])->Some_0.length() == width,
        forall|i: int| 0 <= i < one.len() && !(at <= i < at + width) ==> one[i] == other[i],
    ensures
        boundary(other, x) == boundary(one, x),
        instruction_at(other, x) == instruction_at(one, x),
        instruction_at(one, x) && x != at ==> x + Opcode::of_byte(one[x])->Some_0.length() <= at
            || x >= at + width,
        instruction_at(one, x) ==> Opcode::of_byte(one[x]) is Some && x + Opcode::of_byte(
            one[x],
        )->Some_0.length() <= one.len(),
{
    lemma_instruction_fits(one, at);
    if 0 <= x <= one.len() {
        lemma_decodes_patch(one, other, at, width, 0, x);
    }
    if instruction_at(one, x) {
        lemma_instruction_fits(one, x);
        if x < at {
            lemma_starts_apart(one, 0, x, at);
        } else if x > at {
            lemma_starts_apart(one, 0, at, x);
        }
    }
}

/// An instruction that starts within code that lies end to end, or
/// within its beginning, is an instruction; it ends within the code where
/// the code lies end to end.
pub proof fn lemma_instruction_fits(code: Seq<u8>, at: int)
    requires
        instruction_at(code, at),
    ensures
        boundary(code, code.len() as int) ==> Opcode::of_byte(code[at]) is Some && at
            + Opcode::of_byte(code[at])->Some_0.length() <= code.len() && boundary(
            code,
            at + Opcode::of_byte(code[at])->Some_0.length(),
        ),
{
    if boundary(code, code.len() as int) {
        lemma_starts_apart(code, 0, at, code.len() as int);
        let op = Opcode::of_byte(code[at])->Some_0;
        let end = at + op.length();
        assert(decodes(code, end, end));
        assert(decodes(code, at, end));
        lemma_decodes_join(code, 0, at, end);
    }
}

/// The instructions of code with one instruction more: those it had, and
/// the new one.
pub proof fn lemma_appended(code: Seq<u8>, op: Opcode, operands: Seq<u64>, x: int)
    requires
        boundary(code, code.len() as int),
    ensures
        boundary(code + make_spec(op, operands), (code.len() + op.length()) as int),
        instruction_at(code + make_spec(op, operands), code.len() as int),
        instruction_at(code + make_spec(op, operands), x) ==> x == code.len() || instruction_at(
            code,
            x,
        ),
        0 <= x <= code.len() ==> boundary(code + make_spec(op, operands), x) == boundary(code, x),
{
    let longer = code + make_spec(op, operands);
    lemma_make_length(op, operands);
    assert(longer.subrange(0, code.len() as int) =~= code);
    lemma_boundary_prefix(code, longer, code.len() as int);
    op.lemma_byte_round_trip();
    assert(longer[code.len() as int] == op.byte());
    let end = (code.len() + op.length()) as int;
    assert(decodes(longer, end, end));
    assert(decodes(longer, code.len() as int, end));
    lemma_decodes_join(longer, 0, code.len() as int, end);
    if 0 <= x <= code.len() {
        lemma_boundary_prefix(code, longer, x);
    }
    if instruction_at(longer, x) && x > code.len() {
        lemma_starts_apart(longer, 0, code.len() as int, x);
    }
}

/// The byte of an operand that takes one byte.
pub proof fn lemma_narrow_operand(op: Opcode, operands: Seq<u64>)
    requires
        op.length() == 2,
        operands.len() >= 1,
    ensures
        make_spec(op, operands).len() == 2,
        make_spec(op, operands)[1] as int == operands[0] as int % 256,
{
    reveal_with_fuel(crate::code::encode_operands, 4);
    lemma_make_length(op, operands);
}

/// The bytes of an operand that takes two bytes, read back.
pub proof fn lemma_wide_operand(op: Opcode, value: u64)
    requires
        op.length() == 3,
        value <= 0xFFFF,
    ensures
        make_spec(op, seq![value]).len() == 3,
        make_spec(op, seq![value])[0] == op.byte(),
        u16_of(make_spec(op, seq![value])[1], make_spec(op, seq![value])[2]) == value,
{
    reveal_with_fuel(crate::code::encode_operands, 4);
    lemma_make_length(op, seq![value]);
    let hi = ((value as int / 256) % 256) as u8;
    let lo = (value as int % 256) as u8;
    assert(make_spec(op, seq![value])[1] == hi);
    assert(make_spec(op, seq![value])[2] == lo);
    assert(hi as int * 256 + lo as int == value) by (nonlinear_arith)
        requires
            0 <= value <= 0xFFFF,
            hi as int == (value as int / 256) % 256,
            lo as int == value as int % 256,
    ;
}

/// An emitted instruction that is no `OpPop` and no jump keeps the state
/// sound; one that reads or writes a local must name a slot that the scope
/// has.
pub proof fn lemma_emit_sound(c: CompilerView, op: Opcode, operands: Seq<u64>, pending: Set<int>)
    requires
        sound(c),
        op != Opcode::OpPop,
        !is_jump(op.byte()),
        is_local(op.byte()) && c.symbols.outer is Some ==> operands.len() >= 1 && operands[0] as int
            % 256 < c.symbols.num_definitions,
    ensures
        sound(c.emit(op, operands)),
        jumps_sound(c, pending) ==> jumps_sound(c.emit(op, operands), pending),
{
    let d = c.emit(op, operands);
    let code = c.code();
    let longer = code + make_spec(op, operands);
    lemma_emit(c, op, operands);
    lemma_make_length(op, operands);
    lemma_appended(code, op, operands, 0);
    assert(d.code() == longer);
    assert(ends(longer, d.scope().last->Some_0));
    assert(scope_ok(d.scope()));
    if c.symbols.outer is Some {
        assert forall|at: int| #[trigger]
            instruction_at(longer, at) && is_local(longer[at]) implies at + 1 < longer.len()
            && longer[at + 1] < c.symbols.num_definitions by {
            lemma_appended(code, op, operands, at);
            if at == code.len() {
                lemma_narrow_operand(op, operands);
            } else {
                assert(instruction_at(code, at));
            }
        }
    }
    if jumps_sound(c, pending) {
        assert forall|at: int| #[trigger]
            instruction_at(longer, at) && is_jump(longer[at]) && !pending.contains(
                at,
            ) implies boundary(longer, jump_target(longer, at)) && jump_target(longer, at)
            <= limit(d.scope()) by {
            lemma_appended(code, op, operands, at);
            if at != code.len() {
                assert(instruction_at(code, at));
                lemma_instruction_fits(code, at);
                assert(jump_target(longer, at) == jump_target(code, at));
                lemma_appended(code, op, operands, jump_target(code, at));
            }
        }
    }
}

/// An emitted `OpPop` behind an instruction that is none keeps the state
/// sound.
pub proof fn lemma_emit_pop_sound(c: CompilerView, pending: Set<int>)
    requires
        sound(c),
        c.scope().last is Some,
        !c.last_is(Opcode::OpPop),
    ensures
        sound(c.emit(Opcode::OpPop, Seq::empty())),
        jumps_sound(c, pending) ==> jumps_sound(c.emit(Opcode::OpPop, Seq::empty()), pending),
{
    let op = Opcode::OpPop;
    let operands = Seq::<u64>::empty();
    let d = c.emit(op, operands);
    let code = c.code();
    let longer = code + make_spec(op, operands);
    lemma_with_scope(
        c,
        ScopeView {
            instructions: longer,
            last: Some(Emitted { opcode: op, position: code.len() as int }),
            previous: c.scope().last,
        },
    );
    lemma_make_length(op, operands);
    lemma_appended(code, op, operands, 0);
    assert(d.code() == longer);
    assert(longer.subrange(0, code.len() as int) =~= code);
    assert(scope_ok(d.scope()));
    if c.symbols.outer is Some {
        assert forall|at: int| #[trigger]
            instruction_at(longer, at) && is_local(longer[at]) implies at + 1 < longer.len()
            && longer[at + 1] < c.symbols.num_definitions by {
            lemma_appended(code, op, operands, at);
            if at != code.len() {
                assert(instruction_at(code, at));
            }
        }
    }
    if jumps_sound(c, pending) {
        assert forall|at: int| #[trigger]
            instruction_at(longer, at) && is_jump(longer[at]) && !pending.contains(
                at,
            ) implies boundary(longer, jump_target(longer, at)) && jump_target(longer, at)
            <= limit(d.scope()) by {
            lemma_appended(code, op, operands, at);
            if at != code.len() {
                assert(instruction_at(code, at));
                lemma_instruction_fits(code, at);
                assert(jump_target(longer, at) == jump_target(code, at));
                lemma_appended(code, op, operands, jump_target(code, at));
            }
        }
    }
}

/// An emitted jump keeps the state sound; it is pending.
pub proof fn lemma_emit_jump_sound(c: CompilerView, op: Opcode, pending: Set<int>)
    requires
        sound(c),
        is_jump(op.byte()),
    ensures
        sound(c.emit(op, seq![9999u64])),
        jumps_sound(c, pending) ==> jumps_sound(
            c.emit(op, seq![9999u64]),
            pending.insert(scope_len(c)),
        ),
        instruction_at(c.emit(op, seq![9999u64]).code(), scope_len(c)),
        c.emit(op, seq![9999u64]).code()[scope_len(c)] == op.byte(),
{
    let operands = seq![9999u64];
    let d = c.emit(op, operands);
    let code = c.code();
    let longer = code + make_spec(op, operands);
    lemma_emit(c, op, operands);
    lemma_make_length(op, operands);
    lemma_appended(code, op, operands, 0);
    assert(d.code() == longer);
    assert(ends(longer, d.scope().last->Some_0));
    assert(scope_ok(d.scope()));
    if c.symbols.outer is Some {
        assert forall|at: int| #[trigger]
            instruction_at(longer, at) && is_local(longer[at]) implies at + 1 < longer.len()
            && longer[at + 1] < c.symbols.num_definitions by {
            lemma_appended(code, op, operands, at);
            if at != code.len() {
                assert(instruction_at(code, at));
            }
        }
    }
    if jumps_sound(c, pending) {
        let more = pending.insert(scope_len(c));
        assert forall|at: int| #[trigger]
            instruction_at(longer, at) && is_jump(longer[at]) && !more.contains(at) implies boundary(
            longer,
            jump_target(longer, at),
        ) && jump_target(longer, at) <= limit(d.scope()) by {
            lemma_appended(code, op, operands, at);
            if at != code.len() {
                assert(instruction_at(code, at));
                lemma_instruction_fits(code, at);
                assert(jump_target(longer, at) == jump_target(code, at));
                lemma_appended(code, op, operands, jump_target(code, at));
            }
        }
    }
}

/// A trailing `OpPop` that is cut off keeps the state sound.
pub proof fn lemma_strip_sound(c: CompilerView, pending: Set<int>)
    requires
        sound(c),
    ensures
        sound(c.strip_pop()),
        jumps_sound(c, pending) ==> jumps_sound(c.strip_pop(), pending),
{
    if c.last_is(Opcode::OpPop) {
        let last = c.scope().last->Some_0;
        let code = c.code();
        let shorter = code.subrange(0, last.position);
        let d = c.remove_last();
        lemma_with_scope(
            c,
            ScopeView {
                instructions: shorter,
                last: c.scope().previous,
                previous: c.scope().previous,
            },
        );
        assert(d.code() == shorter);
        assert(code.subrange(0, shorter.len() as int) =~= shorter);
        lemma_boundary_prefix(shorter, code, last.position);
        assert(scope_ok(d.scope()));
        if c.symbols.outer is Some {
            assert forall|at: int| #[trigger]
                instruction_at(shorter, at) && is_local(shorter[at]) implies at + 1 < shorter.len()
                && shorter[at + 1] < c.symbols.num_definitions by {
                lemma_boundary_prefix(shorter, code, at);
                assert(instruction_at(code, at));
                lemma_instruction_fits(code, at);
                lemma_starts_apart(code, 0, at, last.position);
            }
        }
        if jumps_sound(c, pending) {
            assert forall|at: int| #[trigger]
                instruction_at(shorter, at) && is_jump(shorter[at]) && !pending.contains(
                    at,
                ) implies boundary(shorter, jump_target(shorter, at)) && jump_target(shorter, at)
                <= limit(d.scope()) by {
                lemma_boundary_prefix(shorter, code, at);
                assert(instruction_at(code, at));
                lemma_starts_apart(code, 0, at, last.position);
                assert(jump_target(shorter, at) == jump_target(code, at));
                lemma_boundary_prefix(shorter, code, jump_target(code, at));
            }
        }
    }
}

/// Slots that suffice for fewer locals suffice for more.
pub proof fn lemma_locals_more(code: Seq<u8>, fewer: int, more: int)
    requires
        locals_ok(code, fewer),
        fewer <= more,
    ensures
        locals_ok(code, more),
{
    assert forall|at: int| #[trigger]
        instruction_at(code, at) && is_local(code[at]) implies at + 1 < code.len() && code[at + 1]
        < more by {}
}

/// Jumps that lead up to one offset lead up to every later one.
pub proof fn lemma_jumps_further(code: Seq<u8>, pending: Set<int>, nearer: int, further: int)
    requires
        jumps_ok(code, pending, nearer),
        nearer <= further,
    ensures
        jumps_ok(code, pending, further),
{
    assert forall|at: int| #[trigger]
        instruction_at(code, at) && is_jump(code[at]) && !pending.contains(at) implies boundary(
        code,
        jump_target(code, at),
    ) && jump_target(code, at) <= further by {}
}

/// The limit of a sound scope lies within its instructions.
pub proof fn lemma_limit(scope: ScopeView)
    requires
        scope_ok(scope),
    ensures
        0 <= limit(scope) <= scope.instructions.len(),
{
}

/// The instruction at `at` exchanged for `bytes`, byte by byte.
pub open spec fn patched(code: Seq<u8>, at: int, bytes: Seq<u8>) -> Seq<u8> {
    Seq::new(
        code.len(),
        |i: int|
            if at <= i < at + bytes.len() {
                bytes[i - at]
            } else {
                code[i]
            },
    )
}

/// A pending jump that is given the end of the code as its target keeps
/// the state sound and is pending no more.
pub proof fn lemma_patch_sound(c: CompilerView, at: int, operand: u64, pending: Set<int>)
    requires
        sound(c),
        !c.last_is(Opcode::OpPop),
        instruction_at(c.code(), at),
        is_jump(c.code()[at]),
    ensures
        sound(c.change_operand(at, operand)),
        scope_len(c.change_operand(at, operand)) == scope_len(c),
        c.change_operand(at, operand).scope().last == c.scope().last,
        forall|x: int|
            #![trigger instruction_at(c.change_operand(at, operand).code(), x)]
            instruction_at(c.change_operand(at, operand).code(), x) == instruction_at(c.code(), x),
        forall|x: int|
            #![trigger c.change_operand(at, operand).code()[x]]
            instruction_at(c.code(), x) ==> c.change_operand(at, operand).code()[x] == c.code()[x],
        scope_len(c) <= 0xFFFF && operand == scope_len(c) && jumps_sound(c, pending)
            ==> jumps_sound(c.change_operand(at, operand), pending.remove(at)),
{
    let code = c.code();
    lemma_instruction_fits(code, at);
    let op = Opcode::of_byte(code[at])->Some_0;
    let bytes = make_spec(op, seq![operand]);
    lemma_make_length(op, seq![operand]);
    op.lemma_byte_round_trip();
    Opcode::lemma_of_byte_inverse(code[at]);
    let new = patched(code, at, bytes);
    let d = c.change_operand(at, operand);
    lemma_with_scope(c, ScopeView { instructions: new, ..c.scope() });
    assert(d.code() =~= new);
    assert(new[at] == code[at]);
    assert forall|x: int| instruction_at(new, x) == instruction_at(code, x) by {
        lemma_boundary_patch(code, new, at, 3, x);
    }
    assert forall|x: int| #![trigger new[x]] instruction_at(code, x) implies new[x] == code[x] by {
        lemma_boundary_patch(code, new, at, 3, x);
    }
    lemma_boundary_patch(code, new, at, 3, code.len() as int);
    let last = c.scope().last->Some_0;
    lemma_boundary_patch(code, new, at, 3, last.position);
    assert(ends(new, last));
    assert(scope_ok(d.scope()));
    if c.symbols.outer is Some {
        assert forall|x: int| #[trigger]
            instruction_at(new, x) && is_local(new[x]) implies x + 1 < new.len() && new[x + 1]
            < c.symbols.num_definitions by {
            lemma_boundary_patch(code, new, at, 3, x);
            assert(instruction_at(code, x));
            assert(new[x] == code[x]);
        }
    }
    if scope_len(c) <= 0xFFFF && operand == scope_len(c) && jumps_sound(c, pending) {
        let fewer = pending.remove(at);
        lemma_wide_operand(op, operand);
        assert forall|x: int| #[trigger]
            instruction_at(new, x) && is_jump(new[x]) && !fewer.contains(x) implies boundary(
            new,
            jump_target(new, x),
        ) && jump_target(new, x) <= limit(d.scope()) by {
            lemma_boundary_patch(code, new, at, 3, x);
            assert(instruction_at(code, x));
            if x == at {
                assert(jump_target(new, x) == operand);
            } else {
                assert(new[x] == code[x]);
                assert(jump_target(new, x) == jump_target(code, x));
                lemma_boundary_patch(code, new, at, 3, jump_target(code, x));
            }
        }
    }
}

/// A trailing `OpPop` that becomes `OpReturnValue` keeps the state sound.
pub proof fn lemma_return_sound(c: CompilerView, pending: Set<int>)
    requires
        sound(c),
        c.last_is(Opcode::OpPop),
    ensures
        sound(c.replace_last_pop_with_return()),
        scope_len(c.replace_last_pop_with_return()) == scope_len(c),
        c.replace_last_pop_with_return().last_is(Opcode::OpReturnValue),
        c.replace_last_pop_with_return().symbols == c.symbols,
        c.replace_last_pop_with_return().constants == c.constants,
        jumps_sound(c, pending) ==> jumps_sound(c.replace_last_pop_with_return(), pending),
{
    let code = c.code();
    let last = c.scope().last->Some_0;
    let at = last.position;
    let bytes = make_spec(Opcode::OpReturnValue, Seq::empty());
    lemma_make_length(Opcode::OpReturnValue, Seq::empty());
    let new = patched(code, at, bytes);
    let r = c.replace_instruction(at, bytes);
    lemma_with_scope(c, ScopeView { instructions: new, ..c.scope() });
    assert(r.code() =~= new);
    let record = Emitted { opcode: Opcode::OpReturnValue, position: at };
    let d = r.with_last(Some(record));
    lemma_with_scope(r, ScopeView { last: Some(record), ..r.scope() });
    assert(d.code() == new);
    assert(new[at] == Opcode::OpReturnValue.byte());
    lemma_boundary_patch(code, new, at, 1, code.len() as int);
    lemma_boundary_patch(code, new, at, 1, at);
    assert(ends(new, record));
    assert(scope_ok(d.scope()));
    if c.symbols.outer is Some {
        assert forall|x: int| #[trigger]
            instruction_at(new, x) && is_local(new[x]) implies x + 1 < new.len() && new[x + 1]
            < c.symbols.num_definitions by {
            lemma_boundary_patch(code, new, at, 1, x);
            assert(instruction_at(code, x));
        }
    }
    if jumps_sound(c, pending) {
        assert forall|x: int| #[trigger]
            instruction_at(new, x) && is_jump(new[x]) && !pending.contains(x) implies boundary(
            new,
            jump_target(new, x),
        ) && jump_target(new, x) <= limit(d.scope()) by {
            lemma_boundary_patch(code, new, at, 1, x);
            assert(instruction_at(code, x));
            assert(jump_target(new, x) == jump_target(code, x));
            lemma_boundary_patch(code, new, at, 1, jump_target(code, x));
        }
    }
}

/// Another symbol table that covers the current one keeps the state
/// sound.
pub proof fn lemma_symbols_sound(c: CompilerView, table: TableView)
    requires
        sound(c),
        covers(c.symbols, table),
        table_ok(table),
    ensures
        sound(c.with_symbols(table)),
        c.with_symbols(table).scopes == c.scopes,
        c.with_symbols(table).constants == c.constants,
{
    if c.symbols.outer is Some {
        lemma_locals_more(c.code(), c.symbols.num_definitions as int, table.num_definitions as int);
    }
}

/// A constant that is added keeps the state sound where it is no function
/// or a function as `function_ok` says.
pub proof fn lemma_constant_sound(c: CompilerView, value: Value)
    requires
        sound(c),
        value is CompiledFunction ==> function_ok(value->CompiledFunction_0),
    ensures
        sound(c.add_constant(value)),
        c.add_constant(value).scopes == c.scopes,
        c.add_constant(value).symbols == c.symbols,
{
    let d = c.add_constant(value);
    assert forall|i: int|
        0 <= i < d.constants.len() && (#[trigger] d.constants[i]) is CompiledFunction implies function_ok(
        d.constants[i]->CompiledFunction_0,
    ) by {
        if i < c.constants.len() {
            assert(d.constants[i] == c.constants[i]);
        }
    }
}

/// The instruction that pushes what a symbol stands for keeps the state
/// sound where a local has a slot.
pub proof fn lemma_load_sound(c: CompilerView, symbol: SymbolView, pending: Set<int>)
    requires
        sound(c),
        symbol.scope == SymbolScope::Local && c.symbols.outer is Some ==> symbol.index
            < c.symbols.num_definitions,
    ensures
        sound(c.load_symbol(symbol)),
        jumps_sound(c, pending) ==> jumps_sound(c.load_symbol(symbol), pending),
        c.load_symbol(symbol).symbols == c.symbols,
{
    let operand = symbol.index as u64;
    assert(operand as int % 256 <= symbol.index);
    match symbol.scope {
        SymbolScope::Global => lemma_emit_sound(c, Opcode::OpGetGlobal, seq![operand], pending),
        SymbolScope::Local => lemma_emit_sound(c, Opcode::OpGetLocal, seq![operand], pending),
        SymbolScope::Builtin => lemma_emit_sound(c, Opcode::OpGetBuiltin, seq![operand], pending),
        SymbolScope::Free => lemma_emit_sound(c, Opcode::OpGetFree, seq![operand], pending),
        SymbolScope::Function => lemma_emit_sound(
            c,
            Opcode::OpCurrentClosure,
            Seq::empty(),
            pending,
        ),
    }
}

/// The same for symbols in order.
pub proof fn lemma_loads_sound(
    c: CompilerView,
    symbols: Seq<SymbolView>,
    i: int,
    pending: Set<int>,
)
    requires
        sound(c),
        0 <= i,
        forall|j: int|
            i <= j < symbols.len() && (#[trigger] symbols[j]).scope == SymbolScope::Local
                && c.symbols.outer is Some ==> symbols[j].index < c.symbols.num_definitions,
    ensures
        sound(c.load_symbols(symbols, i)),
        jumps_sound(c, pending) ==> jumps_sound(c.load_symbols(symbols, i), pending),
        c.load_symbols(symbols, i).symbols == c.symbols,
    decreases symbols.len() - i,
{
    if i < symbols.len() {
        lemma_load_sound(c, symbols[i], pending);
        lemma_loads_sound(c.load_symbol(symbols[i]), symbols, i + 1, pending);
    }
}

/// The instruction that stores into the variable of a symbol keeps the
/// state sound where a local has a slot.
pub proof fn lemma_store_sound(c: CompilerView, symbol: SymbolView, pending: Set<int>)
    requires
        sound(c),
        c.symbols.outer is Some ==> symbol.index < c.symbols.num_definitions,
    ensures
        sound(c.store_symbol(symbol)),
        jumps_sound(c, pending) ==> jumps_sound(c.store_symbol(symbol), pending),
{
    let operand = symbol.index as u64;
    assert(operand as int % 256 <= symbol.index);
    if symbol.scope == SymbolScope::Global {
        lemma_emit_sound(c, Opcode::OpSetGlobal, seq![operand], pending);
    } else {
        lemma_emit_sound(c, Opcode::OpSetLocal, seq![operand], pending);
    }
}

/// The end of a function's body keeps the state sound, and leaves no
/// `OpPop` at the end.
pub proof fn lemma_end_body_sound(c: CompilerView, pending: Set<int>)
    requires
        sound(c),
    ensures
        sound(end_body(c)),
        scope_len(c) <= scope_len(end_body(c)),
        !end_body(c).last_is(Opcode::OpPop),
        end_body(c).symbols == c.symbols,
        end_body(c).constants == c.constants,
        jumps_sound(c, pending) ==> jumps_sound(end_body(c), pending),
{
    let replaced = if c.last_is(Opcode::OpPop) {
        c.replace_last_pop_with_return()
    } else {
        c
    };
    if c.last_is(Opcode::OpPop) {
        lemma_return_sound(c, pending);
    }
    if !replaced.last_is(Opcode::OpReturnValue) {
        lemma_emit_sound(replaced, Opcode::OpReturn, Seq::empty(), pending);
        lemma_emit(replaced, Opcode::OpReturn, Seq::empty());
    }
}

/// Whether compiling from `c` to `d` has kept the jumps of the current
/// scope sound, where the scope's instructions fit the range of a jump's
/// operand.
pub open spec fn keeps_jumps(c: CompilerView, d: CompilerView, pending: Set<int>) -> bool {
    limit(d.scope()) <= 0xFFFF && jumps_sound(c, pending) && pending_in(pending, scope_len(c))
        ==> jumps_sound(d, pending)
}

/// The limit of a scope does not go back as the scope grows.
pub proof fn lemma_limit_grows(c: CompilerView, d: CompilerView)
    requires
        grows(c, d),
        scope_ok(c.scope()),
    ensures
        limit(c.scope()) <= limit(d.scope()),
        scope_len(c) <= scope_len(d),
{
}

/// Two steps that keep the jumps sound keep them sound together.
pub proof fn lemma_keeps_chain(a: CompilerView, b: CompilerView, c: CompilerView, pending: Set<int>)
    requires
        keeps_jumps(a, b, pending),
        keeps_jumps(b, c, pending),
        scope_len(a) <= scope_len(b),
        grows(b, c),
        scope_ok(b.scope()),
    ensures
        keeps_jumps(a, c, pending),
{
    lemma_limit_grows(b, c);
    if limit(c.scope()) <= 0xFFFF && jumps_sound(a, pending) && pending_in(pending, scope_len(a)) {
        assert(pending_in(pending, scope_len(b)));
    }
}

/// Compiling expressions in order keeps the state sound.
pub proof fn lemma_exprs_sound(
    c: CompilerView,
    exprs: Seq<ExpressionView>,
    i: int,
    pending: Set<int>,
)
    requires
        sound(c),
        0 <= i,
        compile_exprs(c, exprs, i) is Ok,
    ensures
        sound(compile_exprs(c, exprs, i)->Ok_0),
        keeps_jumps(c, compile_exprs(c, exprs, i)->Ok_0, pending),
    decreases exprs, (exprs.len() - i) as nat,
{
    if i < exprs.len() {
        let next = compile_expr(c, exprs[i])->Ok_0;
        let d = compile_exprs(c, exprs, i)->Ok_0;
        lemma_expr_sound(c, exprs[i], pending);
        lemma_exprs_sound(next, exprs, i + 1, pending);
        lemma_expr_grows(c, exprs[i]);
        lemma_exprs_grows(next, exprs, i + 1);
        lemma_keeps_chain(c, next, d, pending);
    }
}

/// Compiling the pairs of a hash literal keeps the state sound.
pub proof fn lemma_pairs_sound(
    c: CompilerView,
    pairs: Seq<(ExpressionView, ExpressionView)>,
    order: Seq<int>,
    i: int,
    pending: Set<int>,
)
    requires
        sound(c),
        0 <= i,
        compile_pairs(c, pairs, order, i) is Ok,
    ensures
        sound(compile_pairs(c, pairs, order, i)->Ok_0),
        keeps_jumps(c, compile_pairs(c, pairs, order, i)->Ok_0, pending),
    decreases pairs, (order.len() - i) as nat,
{
    if i < order.len() {
        if 0 <= order[i] < pairs.len() {
            let with_key = compile_expr(c, pairs[order[i]].0)->Ok_0;
            let next = compile_expr(with_key, pairs[order[i]].1)->Ok_0;
            let d = compile_pairs(c, pairs, order, i)->Ok_0;
            lemma_expr_sound(c, pairs[order[i]].0, pending);
            lemma_expr_sound(with_key, pairs[order[i]].1, pending);
            lemma_pairs_sound(next, pairs, order, i + 1, pending);
            lemma_expr_grows(c, pairs[order[i]].0);
            lemma_expr_grows(with_key, pairs[order[i]].1);
            lemma_pairs_grows(next, pairs, order, i + 1);
            lemma_keeps_chain(c, with_key, next, pending);
            lemma_keeps_chain(c, next, d, pending);
        } else {
            lemma_pairs_sound(c, pairs, order, i + 1, pending);
        }
    }
}

/// Compiling statements in order keeps the state sound.
pub proof fn lemma_stmts_sound(
    c: CompilerView,
    stmts: Seq<StatementView>,
    i: int,
    pending: Set<int>,
)
    requires
        sound(c),
        0 <= i,
        compile_stmts(c, stmts, i) is Ok,
    ensures
        sound(compile_stmts(c, stmts, i)->Ok_0),
        keeps_jumps(c, compile_stmts(c, stmts, i)->Ok_0, pending),
    decreases stmts, (stmts.len() - i) as nat,
{
    if i < stmts.len() {
        let next = compile_stmt(c, stmts[i])->Ok_0;
        let d = compile_stmts(c, stmts, i)->Ok_0;
        lemma_stmt_sound(c, stmts[i], pending);
        lemma_stmts_sound(next, stmts, i + 1, pending);
        lemma_stmt_grows(c, stmts[i]);
        lemma_stmts_grows(next, stmts, i + 1);
        lemma_keeps_chain(c, next, d, pending);
    }
}

/// The opcode of an operator is no jump and names no local.
proof fn lemma_operator_plain(op: TokenView)
    ensures
        infix_opcode(op) is Some ==> !is_jump(infix_opcode(op)->Some_0.byte()) && !is_local(
            infix_opcode(op)->Some_0.byte(),
        ),
        prefix_opcode(op) is Some ==> !is_jump(prefix_opcode(op)->Some_0.byte()) && !is_local(
            prefix_opcode(op)->Some_0.byte(),
        ),
{
}

/// Compiling a binary expression keeps the state sound.
pub proof fn lemma_infix_sound(c: CompilerView, e: ExpressionView, pending: Set<int>)
    requires
        sound(c),
        e is Infix,
        compile_infix(c, e) is Ok,
    ensures
        sound(compile_infix(c, e)->Ok_0),
        keeps_jumps(c, compile_infix(c, e)->Ok_0, pending),
    decreases e, 0nat,
{
    match e {
        ExpressionView::Infix(op, left, right) => {
            lemma_operator_opcodes(op);
            lemma_operator_plain(op);
            let (first, second, opcode) = if op == TokenView::Lt {
                (*right, *left, Opcode::OpGreaterThan)
            } else {
                (*left, *right, infix_opcode(op)->Some_0)
            };
            let c1 = compile_expr(c, first)->Ok_0;
            let c2 = compile_expr(c1, second)->Ok_0;
            let d = c2.emit(opcode, Seq::empty());
            lemma_expr_sound(c, first, pending);
            lemma_expr_sound(c1, second, pending);
            lemma_emit_sound(c2, opcode, Seq::empty(), pending);
            lemma_expr_grows(c, first);
            lemma_expr_grows(c1, second);
            lemma_emit(c2, opcode, Seq::empty());
            lemma_keeps_chain(c, c1, c2, pending);
            lemma_keeps_chain(c, c2, d, pending);
        },
        _ => {},
    }
}

/// Compiling a branch keeps the state sound.
pub proof fn lemma_branch_sound(c: CompilerView, block: StatementView, pending: Set<int>)
    requires
        sound(c),
        compile_branch(c, block) is Ok,
    ensures
        sound(compile_branch(c, block)->Ok_0),
        keeps_jumps(c, compile_branch(c, block)->Ok_0, pending),
    decreases block, 2nat,
{
    let c1 = compile_stmt(c, block)->Ok_0;
    lemma_stmt_sound(c, block, pending);
    lemma_strip_sound(c1, pending);
    if c1.last_is(Opcode::OpPop) {
        let last = c1.scope().last->Some_0;
        lemma_with_scope(
            c1,
            ScopeView {
                instructions: c1.code().subrange(0, last.position),
                last: c1.scope().previous,
                previous: c1.scope().previous,
            },
        );
        assert(limit(c1.strip_pop().scope()) == limit(c1.scope()));
    }
}

/// The state of a conditional behind its consequence and the jump over the
/// alternative, with the first jump given its target.
pub open spec fn if_half(c: CompilerView, e: ExpressionView) -> CompilerView {
    match e {
        ExpressionView::If(condition, consequence, _) => {
            let c1 = compile_expr(c, *condition)->Ok_0;
            let c2 = compile_branch(
                c1.emit(Opcode::OpJumpNotTruthy, seq![9999u64]),
                *consequence,
            )->Ok_0;
            let c3 = c2.emit(Opcode::OpJump, seq![9999u64]);
            c3.change_operand(c1.code().len() as int, c3.code().len() as u64)
        },
        _ => c,
    }
}

/// The offset of the jump over the alternative of a conditional.
pub open spec fn if_jump_at(c: CompilerView, e: ExpressionView) -> int {
    match e {
        ExpressionView::If(condition, consequence, _) => {
            let c1 = compile_expr(c, *condition)->Ok_0;
            scope_len(
                compile_branch(c1.emit(Opcode::OpJumpNotTruthy, seq![9999u64]), *consequence)->Ok_0,
            )
        },
        _ => 0,
    }
}

/// The first half of a conditional keeps the state sound; the jump over
/// the alternative is pending.
pub proof fn lemma_if_half_sound(c: CompilerView, e: ExpressionView, pending: Set<int>)
    requires
        sound(c),
        e is If,
        compile_if(c, e) is Ok,
    ensures
        sound(if_half(c, e)),
        grows(c, if_half(c, e)),
        !if_half(c, e).last_is(Opcode::OpPop),
        scope_len(c) <= if_jump_at(c, e),
        scope_len(if_half(c, e)) == if_jump_at(c, e) + 3,
        instruction_at(if_half(c, e).code(), if_jump_at(c, e)),
        is_jump(if_half(c, e).code()[if_jump_at(c, e)]),
        scope_len(if_half(c, e)) <= 0xFFFF && jumps_sound(c, pending) && pending_in(
            pending,
            scope_len(c),
        ) ==> jumps_sound(if_half(c, e), pending.insert(if_jump_at(c, e))),
        limit(if_half(c, e).scope()) == scope_len(if_half(c, e)),
    decreases e, 0nat,
{
    match e {
        ExpressionView::If(condition, consequence, alternative) => {
            let c1 = compile_expr(c, *condition)->Ok_0;
            let j1 = scope_len(c1);
            let c1e = c1.emit(Opcode::OpJumpNotTruthy, seq![9999u64]);
            let c2 = compile_branch(c1e, *consequence)->Ok_0;
            let j2 = scope_len(c2);
            let c3 = c2.emit(Opcode::OpJump, seq![9999u64]);
            let c4 = c3.change_operand(j1, c3.code().len() as u64);
            let with_first = pending.insert(j1);
            let with_both = with_first.insert(j2);
            let with_second = pending.insert(j2);
            lemma_expr_grows(c, *condition);
            lemma_emit(c1, Opcode::OpJumpNotTruthy, seq![9999u64]);
            lemma_branch_grows(c1e, *consequence);
            lemma_emit(c2, Opcode::OpJump, seq![9999u64]);
            lemma_grows_chain(c1e, c2, c3);
            lemma_grows_chain(c1, c1e, c3);
            lemma_change_operand(c1, c3, j1, c3.code().len() as u64);
            lemma_grows_chain(c, c1, c4);
            lemma_expr_sound(c, *condition, pending);
            lemma_emit_jump_sound(c1, Opcode::OpJumpNotTruthy, pending);
            lemma_branch_sound(c1e, *consequence, with_first);
            lemma_emit_jump_sound(c2, Opcode::OpJump, with_first);
            lemma_boundary_prefix(c1e.code(), c3.code(), j1);
            assert(c3.code().subrange(0, scope_len(c1e))[j1] == c3.code()[j1]);
            lemma_patch_sound(c3, j1, c3.code().len() as u64, with_both);
            if scope_len(c4) <= 0xFFFF && jumps_sound(c, pending) && pending_in(
                pending,
                scope_len(c),
            ) {
                assert(pending_in(pending, scope_len(c1)));
                lemma_limit(c1.scope());
                lemma_limit(c2.scope());
                assert(jumps_sound(c1, pending));
                assert(jumps_sound(c1e, with_first));
                assert(pending_in(with_first, scope_len(c1e)));
                assert(jumps_sound(c2, with_first));
                assert(jumps_sound(c3, with_both));
                assert(with_both.remove(j1) =~= with_second);
            }
        },
        _ => {},
    }
}

/// The state of a conditional behind its alternative, with the second
/// jump given its target, from the state `half` behind its first half.
pub open spec fn if_rest(half: CompilerView, e: ExpressionView, jump_at: int) -> CompilerView {
    match e {
        ExpressionView::If(_, _, alternative) => {
            let c5 = match alternative {
                Some(block) => compile_branch(half, *block)->Ok_0,
                None => half.emit(Opcode::OpNull, Seq::empty()),
            };
            c5.change_operand(jump_at, c5.code().len() as u64)
        },
        _ => half,
    }
}

/// A conditional is compiled in two halves.
pub proof fn lemma_if_halves(c: CompilerView, e: ExpressionView)
    requires
        e is If,
        compile_if(c, e) is Ok,
    ensures
        compile_if(c, e)->Ok_0 == if_rest(if_half(c, e), e, if_jump_at(c, e)),
        e->If_2 is Some ==> compile_branch(if_half(c, e), *e->If_2->Some_0) is Ok,
{
}

/// A jump that was emitted into `before` and is given the end of the
/// later state `c` as its target is pending no more.
pub proof fn lemma_patch_later(
    before: CompilerView,
    c: CompilerView,
    jump_at: int,
    pending: Set<int>,
)
    requires
        sound(c),
        grows(before, c),
        !c.last_is(Opcode::OpPop),
        instruction_at(before.code(), jump_at),
        is_jump(before.code()[jump_at]),
        !pending.contains(jump_at),
    ensures
        sound(c.change_operand(jump_at, c.code().len() as u64)),
        scope_len(c.change_operand(jump_at, c.code().len() as u64)) == scope_len(c),
        scope_len(c) <= 0xFFFF && jumps_sound(c, pending.insert(jump_at)) ==> jumps_sound(
            c.change_operand(jump_at, c.code().len() as u64),
            pending,
        ),
{
    lemma_boundary_prefix(before.code(), c.code(), jump_at);
    assert(c.code().subrange(0, scope_len(before))[jump_at] == c.code()[jump_at]);
    lemma_patch_sound(c, jump_at, c.code().len() as u64, pending.insert(jump_at));
    assert(pending.insert(jump_at).remove(jump_at) =~= pending);
}

/// An alternative behind the first half of a conditional keeps the state
/// sound, and the jump over it is pending no more.
pub proof fn lemma_else_sound(
    half: CompilerView,
    block: StatementView,
    jump_at: int,
    pending: Set<int>,
)
    requires
        sound(half),
        compile_branch(half, block) is Ok,
        !half.last_is(Opcode::OpPop),
        instruction_at(half.code(), jump_at),
        is_jump(half.code()[jump_at]),
        !pending.contains(jump_at),
    ensures
        ({
            let c5 = compile_branch(half, block)->Ok_0;
            let d = c5.change_operand(jump_at, c5.code().len() as u64);
            &&& sound(d)
            &&& scope_len(half) <= scope_len(d)
            &&& (scope_len(d) <= 0xFFFF && jumps_sound(half, pending.insert(jump_at))
                && pending_in(pending.insert(jump_at), scope_len(half)) ==> jumps_sound(d, pending))
        }),
    decreases block, 3nat,
{
    let c5 = compile_branch(half, block)->Ok_0;
    lemma_branch_grows(half, block);
    lemma_branch_sound(half, block, pending.insert(jump_at));
    lemma_patch_later(half, c5, jump_at, pending);
}

/// An `OpNull` in place of an alternative keeps the state sound, and the
/// jump over it is pending no more.
pub proof fn lemma_no_else_sound(half: CompilerView, jump_at: int, pending: Set<int>)
    requires
        sound(half),
        !half.last_is(Opcode::OpPop),
        instruction_at(half.code(), jump_at),
        is_jump(half.code()[jump_at]),
        !pending.contains(jump_at),
    ensures
        ({
            let c5 = half.emit(Opcode::OpNull, Seq::empty());
            let d = c5.change_operand(jump_at, c5.code().len() as u64);
            &&& sound(d)
            &&& scope_len(half) <= scope_len(d)
            &&& (scope_len(d) <= 0xFFFF && jumps_sound(half, pending.insert(jump_at))
                ==> jumps_sound(d, pending))
        }),
{
    let c5 = half.emit(Opcode::OpNull, Seq::empty());
    lemma_emit(half, Opcode::OpNull, Seq::empty());
    lemma_emit_sound(half, Opcode::OpNull, Seq::empty(), pending.insert(jump_at));
    lemma_patch_later(half, c5, jump_at, pending);
}

/// Compiling a conditional keeps the state sound: both of its jumps lead
/// to instructions once they have their targets.
pub proof fn lemma_if_sound(c: CompilerView, e: ExpressionView, pending: Set<int>)
    requires
        sound(c),
        e is If,
        compile_if(c, e) is Ok,
    ensures
        sound(compile_if(c, e)->Ok_0),
        keeps_jumps(c, compile_if(c, e)->Ok_0, pending),
    decreases e, 1nat,
{
    let half = if_half(c, e);
    let jump_at = if_jump_at(c, e);
    lemma_if_halves(c, e);
    lemma_if_half_sound(c, e, pending);
    let chosen = if scope_len(c) <= jump_at && pending_in(pending, scope_len(c)) {
        pending
    } else {
        Set::<int>::empty()
    };
    assert(!chosen.contains(jump_at));
    match e->If_2 {
        Some(block) => {
            lemma_else_sound(half, *block, jump_at, chosen);
        },
        None => {
            lemma_no_else_sound(half, jump_at, chosen);
        },
    }
    if scope_len(c) <= jump_at && pending_in(pending, scope_len(c)) {
        assert(pending_in(pending.insert(jump_at), scope_len(half)));
    }
    lemma_if_grows(c, e);
}

/// Compiling a slice expression keeps the state sound.
pub proof fn lemma_slice_sound(c: CompilerView, e: ExpressionView, pending: Set<int>)
    requires
        sound(c),
        e is SliceIndex,
        compile_slice(c, e) is Ok,
    ensures
        sound(compile_slice(c, e)->Ok_0),
        keeps_jumps(c, compile_slice(c, e)->Ok_0, pending),
    decreases e, 0nat,
{
    match e {
        ExpressionView::SliceIndex(left, start, stop) => {
            let c1 = compile_expr(c, *left)->Ok_0;
            lemma_expr_sound(c, *left, pending);
            lemma_expr_grows(c, *left);
            let c2 = match start {
                Some(start) => compile_expr(c1, *start)->Ok_0,
                None => c1.emit(Opcode::OpNull, Seq::empty()),
            };
            match start {
                Some(start) => {
                    lemma_expr_sound(c1, *start, pending);
                    lemma_expr_grows(c1, *start);
                },
                None => {
                    lemma_emit_sound(c1, Opcode::OpNull, Seq::empty(), pending);
                    lemma_emit(c1, Opcode::OpNull, Seq::empty());
                },
            }
            let c3 = match stop {
                Some(stop) => compile_expr(c2, *stop)->Ok_0,
                None => c2.emit(Opcode::OpNull, Seq::empty()),
            };
            match stop {
                Some(stop) => {
                    lemma_expr_sound(c2, *stop, pending);
                    lemma_expr_grows(c2, *stop);
                },
                None => {
                    lemma_emit_sound(c2, Opcode::OpNull, Seq::empty(), pending);
                    lemma_emit(c2, Opcode::OpNull, Seq::empty());
                },
            }
            let d = c3.emit(Opcode::OpSliceIndex, Seq::empty());
            lemma_emit_sound(c3, Opcode::OpSliceIndex, Seq::empty(), pending);
            lemma_emit(c3, Opcode::OpSliceIndex, Seq::empty());
            lemma_keeps_chain(c, c1, c2, pending);
            lemma_keeps_chain(c, c2, c3, pending);
            lemma_keeps_chain(c, c3, d, pending);
        },
        _ => {},
    }
}

/// A function's scope that is closed leaves the scope around it sound,
/// with the function among the constants.
pub proof fn lemma_close_sound(
    c: CompilerView,
    inner: CompilerView,
    parameters: usize,
    pending: Set<int>,
)
    requires
        sound(c),
        sound(inner),
        !inner.last_is(Opcode::OpPop),
        inner.scopes.len() == c.scopes.len() + 1,
        inner.scopes.drop_last() == c.scopes,
        inner.symbols.outer is Some,
        covers(c.symbols, *inner.symbols.outer->Some_0),
        parameters <= inner.symbols.num_definitions,
        scope_len(inner) <= 0xFFFF ==> jumps_sound(inner, Set::empty()),
    ensures
        sound(close_function(inner, parameters)),
        jumps_sound(c, pending) ==> jumps_sound(close_function(inner, parameters), pending),
{
    let func = FunctionView {
        instructions: inner.code(),
        num_locals: inner.symbols.num_definitions,
        num_parameters: parameters,
    };
    if scope_len(inner) <= 0xFFFF {
        lemma_limit(inner.scope());
        lemma_jumps_further(inner.code(), Set::empty(), limit(inner.scope()), scope_len(inner));
    }
    assert(function_ok(func));
    let free = inner.symbols.free_symbols;
    let left = inner.leave_scope();
    assert(left.scopes == c.scopes);
    assert(left.scope() == c.scope());
    if c.symbols.outer is Some {
        lemma_locals_more(
            c.code(),
            c.symbols.num_definitions as int,
            left.symbols.num_definitions as int,
        );
    }
    assert(sound(left));
    lemma_loads_sound(left, free, 0, pending);
    let outside = left.load_symbols(free, 0);
    lemma_constant_sound(outside, Value::CompiledFunction(func));
    let added = outside.add_constant(Value::CompiledFunction(func));
    assert(added.scope() == outside.scope());
    lemma_emit_sound(
        added,
        Opcode::OpClosure,
        seq![outside.constants.len() as u64, free.len() as u64],
        pending,
    );
}

/// Compiling a function literal keeps the state sound, and the function
/// that it adds to the constants is as `function_ok` says.
pub proof fn lemma_function_sound(c: CompilerView, e: ExpressionView, pending: Set<int>)
    requires
        sound(c),
        e is Function,
        compile_function(c, e) is Ok,
    ensures
        sound(compile_function(c, e)->Ok_0),
        jumps_sound(c, pending) ==> jumps_sound(compile_function(c, e)->Ok_0, pending),
    decreases e, 0nat,
{
    match e {
        ExpressionView::Function(params, body, own_name) => {
            let inside = c.enter_scope();
            assert(inside.scopes.drop_last() =~= c.scopes);
            lemma_covers_itself(c.symbols);
            assert(boundary(inside.code(), 0));
            assert(sound(inside)) by {
                assert forall|at: int| #[trigger]
                    instruction_at(inside.code(), at) && is_local(
                        inside.code()[at],
                    ) implies at + 1 < inside.code().len() && inside.code()[at + 1] < 0 by {}
            }
            let named = match own_name {
                Some(name) => inside.with_symbols(inside.symbols.define_function_name(name)),
                None => inside,
            };
            assert(covers(inside.symbols, named.symbols)) by {
                lemma_covers_itself(inside.symbols);
            }
            assert(table_ok(named.symbols)) by {
                match own_name {
                    Some(name) => {
                        let t = inside.symbols;
                        let u = t.define_function_name(name);
                        assert forall|n: Seq<char>|
                            #[trigger] u.store.contains_key(n) && u.store[n].scope
                                == SymbolScope::Local implies u.store[n].index
                            < u.num_definitions by {
                            if n != name {
                                assert(t.store.contains_key(n));
                            }
                        }
                    },
                    None => {},
                }
            }
            lemma_symbols_sound(inside, named.symbols);
            lemma_with_symbols(inside, named.symbols);
            lemma_define_all(named, params, 0);
            let ready = named.define_all(params, 0)->Ok_0;
            lemma_symbols_sound(named, ready.symbols);
            assert(ready =~= named.with_symbols(ready.symbols));
            lemma_stmt_grows(ready, *body);
            let compiled = compile_stmt(ready, *body)->Ok_0;
            lemma_stmt_sound(ready, *body, Set::empty());
            lemma_grows_chain(inside, named, ready);
            lemma_grows_chain(inside, ready, compiled);
            let ended = end_body(compiled);
            lemma_end_body_frame(compiled);
            lemma_end_body_sound(compiled, Set::empty());
            assert(jumps_sound(ready, Set::empty())) by {
                assert forall|at: int| #[trigger]
                    instruction_at(ready.code(), at) && is_jump(ready.code()[at])
                        && !Set::<int>::empty().contains(at) implies boundary(
                    ready.code(),
                    jump_target(ready.code(), at),
                ) && jump_target(ready.code(), at) <= limit(ready.scope()) by {}
            }
            lemma_close_sound(c, ended, params.len() as usize, pending);
        },
        _ => {},
    }
}

/// Compiling an expression keeps the state sound.
pub proof fn lemma_expr_sound(c: CompilerView, e: ExpressionView, pending: Set<int>)
    requires
        sound(c),
        compile_expr(c, e) is Ok,
    ensures
        sound(compile_expr(c, e)->Ok_0),
        keeps_jumps(c, compile_expr(c, e)->Ok_0, pending),
    decreases e, 2nat,
{
    let d = compile_expr(c, e)->Ok_0;
    match e {
        ExpressionView::Integer(value) => {
            lemma_constant_sound(c, Value::Integer(value));
            let c1 = c.add_constant(Value::Integer(value));
            assert(c1.scope() == c.scope());
            lemma_emit_sound(c1, Opcode::OpConstant, seq![c.constants.len() as u64], pending);
        },
        ExpressionView::Boolean(value) => {
            lemma_emit_sound(
                c,
                if value {
                    Opcode::OpTrue
                } else {
                    Opcode::OpFalse
                },
                Seq::empty(),
                pending,
            );
        },
        ExpressionView::Str(value) => {
            lemma_constant_sound(c, Value::Str(value));
            let c1 = c.add_constant(Value::Str(value));
            assert(c1.scope() == c.scope());
            lemma_emit_sound(c1, Opcode::OpConstant, seq![c.constants.len() as u64], pending);
        },
        ExpressionView::Hash(pairs) => {
            let order = sort_order(key_texts(pairs), pairs.len());
            lemma_pairs_sound(c, pairs, order, 0, pending);
            lemma_pairs_grows(c, pairs, order, 0);
            let c1 = compile_pairs(c, pairs, order, 0)->Ok_0;
            let operands = seq![(pairs.len() as u64).wrapping_mul(2)];
            lemma_emit_sound(c1, Opcode::OpHash, operands, pending);
            lemma_emit(c1, Opcode::OpHash, operands);
            lemma_keeps_chain(c, c1, d, pending);
        },
        ExpressionView::Array(elements) => {
            lemma_exprs_sound(c, elements, 0, pending);
            lemma_exprs_grows(c, elements, 0);
            let c1 = compile_exprs(c, elements, 0)->Ok_0;
            lemma_emit_sound(c1, Opcode::OpArray, seq![elements.len() as u64], pending);
            lemma_emit(c1, Opcode::OpArray, seq![elements.len() as u64]);
            lemma_keeps_chain(c, c1, d, pending);
        },
        ExpressionView::Infix(_, _, _) => {
            lemma_infix_sound(c, e, pending);
        },
        ExpressionView::Prefix(op, right) => {
            lemma_operator_opcodes(op);
            lemma_operator_plain(op);
            lemma_expr_sound(c, *right, pending);
            lemma_expr_grows(c, *right);
            let c1 = compile_expr(c, *right)->Ok_0;
            lemma_emit_sound(c1, prefix_opcode(op)->Some_0, Seq::empty(), pending);
            lemma_emit(c1, prefix_opcode(op)->Some_0, Seq::empty());
            lemma_keeps_chain(c, c1, d, pending);
        },
        ExpressionView::If(_, _, _) => {
            lemma_if_sound(c, e, pending);
        },
        ExpressionView::Identifier(name) => {
            let (found, symbols) = c.symbols.resolve(name);
            lemma_resolve(c.symbols, name);
            lemma_symbols_sound(c, symbols);
            let c1 = c.with_symbols(symbols);
            lemma_load_sound(c1, found->Some_0, pending);
        },
        ExpressionView::Index(left, index) => {
            lemma_expr_sound(c, *left, pending);
            lemma_expr_grows(c, *left);
            let c1 = compile_expr(c, *left)->Ok_0;
            lemma_expr_sound(c1, *index, pending);
            lemma_expr_grows(c1, *index);
            let c2 = compile_expr(c1, *index)->Ok_0;
            lemma_emit_sound(c2, Opcode::OpIndex, Seq::empty(), pending);
            lemma_emit(c2, Opcode::OpIndex, Seq::empty());
            lemma_keeps_chain(c, c1, c2, pending);
            lemma_keeps_chain(c, c2, d, pending);
        },
        ExpressionView::SliceIndex(_, _, _) => {
            lemma_slice_sound(c, e, pending);
        },
        ExpressionView::Function(_, _, _) => {
            lemma_function_sound(c, e, pending);
        },
        ExpressionView::Call(function, args) => {
            lemma_expr_sound(c, *function, pending);
            lemma_expr_grows(c, *function);
            let c1 = compile_expr(c, *function)->Ok_0;
            lemma_exprs_sound(c1, args, 0, pending);
            lemma_exprs_grows(c1, args, 0);
            let c2 = compile_exprs(c1, args, 0)->Ok_0;
            lemma_emit_sound(c2, Opcode::OpCall, seq![args.len() as u64], pending);
            lemma_emit(c2, Opcode::OpCall, seq![args.len() as u64]);
            lemma_keeps_chain(c, c1, c2, pending);
            lemma_keeps_chain(c, c2, d, pending);
        },
    }
}

/// Compiling a `let` keeps the state sound.
pub proof fn lemma_let_sound(c: CompilerView, s: StatementView, pending: Set<int>)
    requires
        sound(c),
        s is Let,
        compile_let(c, s) is Ok,
    ensures
        sound(compile_let(c, s)->Ok_0),
        keeps_jumps(c, compile_let(c, s)->Ok_0, pending),
    decreases s, 0nat,
{
    match s {
        StatementView::Let(name, value) => {
            if binds_itself(name, value) {
                lemma_define(c, name);
                let c1 = c.define(name)->Ok_0;
                lemma_symbols_sound(c, c1.symbols);
                assert(c1 =~= c.with_symbols(c1.symbols));
                lemma_expr_sound(c1, value, pending);
                lemma_expr_grows(c1, value);
                let c2 = compile_expr(c1, value)->Ok_0;
                let symbol = c.symbols.defined(name);
                lemma_store_sound(c2, symbol, pending);
                lemma_store_symbol(c2, symbol);
                let d = c2.store_symbol(symbol);
                lemma_keeps_chain(c, c1, c2, pending);
                lemma_keeps_chain(c, c2, d, pending);
            } else {
                lemma_expr_sound(c, value, pending);
                lemma_expr_grows(c, value);
                let c1 = compile_expr(c, value)->Ok_0;
                lemma_define(c1, name);
                let c2 = c1.define(name)->Ok_0;
                lemma_symbols_sound(c1, c2.symbols);
                assert(c2 =~= c1.with_symbols(c2.symbols));
                let symbol = c1.symbols.defined(name);
                lemma_store_sound(c2, symbol, pending);
                lemma_store_symbol(c2, symbol);
                let d = c2.store_symbol(symbol);
                lemma_keeps_chain(c, c1, c2, pending);
                lemma_keeps_chain(c, c2, d, pending);
            }
        },
        _ => {},
    }
}

/// Compiling a statement keeps the state sound.
pub proof fn lemma_stmt_sound(c: CompilerView, s: StatementView, pending: Set<int>)
    requires
        sound(c),
        compile_stmt(c, s) is Ok,
    ensures
        sound(compile_stmt(c, s)->Ok_0),
        keeps_jumps(c, compile_stmt(c, s)->Ok_0, pending),
    decreases s, 1nat,
{
    let d = compile_stmt(c, s)->Ok_0;
    match s {
        StatementView::Expression(value) => {
            lemma_expr_sound(c, value, pending);
            lemma_expr_grows(c, value);
            let c1 = compile_expr(c, value)->Ok_0;
            lemma_emit_pop_sound(c1, pending);
            lemma_emit_pop(c, c1);
            lemma_make_length(Opcode::OpPop, Seq::empty());
            lemma_with_scope(
                c1,
                ScopeView {
                    instructions: c1.code() + make_spec(Opcode::OpPop, Seq::empty()),
                    last: Some(Emitted { opcode: Opcode::OpPop, position: c1.code().len() as int }),
                    previous: c1.scope().last,
                },
            );
            assert(limit(d.scope()) == limit(c1.scope()));
        },
        StatementView::Block(statements) => {
            lemma_stmts_sound(c, statements, 0, pending);
        },
        StatementView::Let(_, _) => {
            lemma_let_sound(c, s, pending);
        },
        StatementView::Return(value) => {
            lemma_expr_sound(c, value, pending);
            lemma_expr_grows(c, value);
            let c1 = compile_expr(c, value)->Ok_0;
            lemma_emit_sound(c1, Opcode::OpReturnValue, Seq::empty(), pending);
            lemma_emit(c1, Opcode::OpReturnValue, Seq::empty());
            lemma_keeps_chain(c, c1, d, pending);
        },
    }
}

/// The built-in functions that are defined in a table add no locals.
pub proof fn lemma_builtins_ok(table: TableView, i: nat)
    requires
        table_ok(table),
        table.outer is None,
    ensures
        table_ok(with_builtins(table, i)),
        with_builtins(table, i).outer is None,
    decreases 6 - i,
{
    match Builtin::at(i) {
        Some(builtin) => {
            if i < 6 {
                let next = table.define_builtin(i as usize, builtin.name());
                assert forall|n: Seq<char>|
                    #[trigger] next.store.contains_key(n) && next.store[n].scope
                        == SymbolScope::Local implies next.store[n].index
                    < next.num_definitions by {
                    if n != builtin.name() {
                        assert(table.store.contains_key(n));
                    }
                }
                lemma_builtins_ok(next, i + 1);
            }
        },
        None => {},
    }
}

/// The outermost table of a table that is in order is in order.
pub proof fn lemma_outermost_ok(table: TableView)
    requires
        table_ok(table),
    ensures
        table_ok(table.outermost()),
        table.outermost().outer is None,
    decreases table,
{
    match table.outer {
        Some(outer) => lemma_outermost_ok(*outer),
        None => {},
    }
}

/// Code without instructions is sound code.
pub proof fn lemma_empty_scope()
    ensures
        scope_ok(ScopeView::empty()),
        jumps_ok(Seq::empty(), Set::empty(), 0),
        forall|slots: int| locals_ok(Seq::empty(), slots),
{
    assert(boundary(Seq::<u8>::empty(), 0));
}

/// A compiler that has compiled nothing is sound, and no jump is pending.
pub proof fn lemma_fresh_sound()
    ensures
        sound(CompilerView::fresh()),
        jumps_sound(CompilerView::fresh(), Set::empty()),
{
    let table = TableView::empty(None);
    assert(table_ok(table));
    lemma_builtins_ok(table, 0);
    lemma_empty_scope();
    let c = CompilerView::fresh();
    assert(c.scope() == ScopeView::empty());
}

/// A sound compiler that is reset is sound, and no jump is pending.
pub proof fn lemma_reset_sound(c: CompilerView)
    requires
        sound(c),
    ensures
        ({
            let d = CompilerView {
                constants: c.constants,
                symbols: c.symbols.outermost(),
                scopes: seq![ScopeView::empty()],
            };
            sound(d) && jumps_sound(d, Set::empty())
        }),
{
    lemma_outermost_ok(c.symbols);
    lemma_empty_scope();
    let d = CompilerView {
        constants: c.constants,
        symbols: c.symbols.outermost(),
        scopes: seq![ScopeView::empty()],
    };
    assert(d.scope() == ScopeView::empty());
}

/// Compiling a program from a sound state without pending jumps leaves a
/// sound state. Where the instructions of the current scope fit the range
/// of a jump's operand, each of their jumps leads to the start of an
/// instruction of the scope or to the scope's end.
pub proof fn lemma_program_sound(c: CompilerView, program: Seq<StatementView>)
    requires
        sound(c),
        jumps_sound(c, Set::empty()),
        compile_stmts(c, program, 0) is Ok,
    ensures
        sound(compile_stmts(c, program, 0)->Ok_0),
        scope_len(compile_stmts(c, program, 0)->Ok_0) <= 0xFFFF ==> jumps_ok(
            compile_stmts(c, program, 0)->Ok_0.code(),
            Set::empty(),
            scope_len(compile_stmts(c, program, 0)->Ok_0),
        ),
{
    let d = compile_stmts(c, program, 0)->Ok_0;
    lemma_stmts_sound(c, program, 0, Set::empty());
    lemma_limit(d.scope());
    if scope_len(d) <= 0xFFFF {
        lemma_jumps_further(d.code(), Set::empty(), limit(d.scope()), scope_len(d));
    }
}

/// Every jump of a compiled program leads to an instruction: in the
/// instructions of the main program, where these are at most 65535 bytes,
/// the operand of each `OpJump` and `OpJumpNotTruthy` is the offset of the
/// start of an instruction, or the length of the instructions.
pub proof fn lemma_jumps_lead_to_instructions(
    c: CompilerView,
    program: Seq<StatementView>,
    at: int,
)
    requires
        sound(c),
        jumps_sound(c, Set::empty()),
        compile_stmts(c, program, 0) is Ok,
        compile_stmts(c, program, 0)->Ok_0.code().len() <= 0xFFFF,
        instruction_at(compile_stmts(c, program, 0)->Ok_0.code(), at),
        is_jump(compile_stmts(c, program, 0)->Ok_0.code()[at]),
    ensures
        boundary(
            compile_stmts(c, program, 0)->Ok_0.code(),
            jump_target(compile_stmts(c, program, 0)->Ok_0.code(), at),
        ),
{
    lemma_program_sound(c, program);
}

/// Every jump of a compiled function leads to an instruction of the
/// function: in the instructions of each function among the constants of
/// a compiled program, where these are at most 65535 bytes, the operand of
/// each `OpJump` and `OpJumpNotTruthy` is the offset of the start of an
/// instruction, or the length of the instructions.
pub proof fn lemma_function_jumps_lead_to_instructions(
    c: CompilerView,
    program: Seq<StatementView>,
    i: int,
    at: int,
)
    requires
        sound(c),
        jumps_sound(c, Set::empty()),
        compile_stmts(c, program, 0) is Ok,
        0 <= i < compile_stmts(c, program, 0)->Ok_0.constants.len(),
        compile_stmts(c, program, 0)->Ok_0.constants[i] is CompiledFunction,
        compile_stmts(
            c,
            program,
            0,
        )->Ok_0.constants[i]->CompiledFunction_0.instructions.len() <= 0xFFFF,
        instruction_at(
            compile_stmts(c, program, 0)->Ok_0.constants[i]->CompiledFunction_0.instructions,
            at,
        ),
        is_jump(
            compile_stmts(c, program, 0)->Ok_0.constants[i]->CompiledFunction_0.instructions[at],
        ),
    ensures
        boundary(
            compile_stmts(c, program, 0)->Ok_0.constants[i]->CompiledFunction_0.instructions,
            jump_target(
                compile_stmts(c, program, 0)->Ok_0.constants[i]->CompiledFunction_0.instructions,
                at,
            ),
        ),
{
    lemma_program_sound(c, program);
}

/// Every compiled function has a slot for each local that it uses: each
/// function among the constants of a compiled program has at least as many
/// locals as parameters, and the operand of each of its `OpGetLocal` and
/// `OpSetLocal` is less than the number of its locals.
pub proof fn lemma_locals_have_slots(
    c: CompilerView,
    program: Seq<StatementView>,
    i: int,
    at: int,
)
    requires
        sound(c),
        jumps_sound(c, Set::empty()),
        compile_stmts(c, program, 0) is Ok,
        0 <= i < compile_stmts(c, program, 0)->Ok_0.constants.len(),
        compile_stmts(c, program, 0)->Ok_0.constants[i] is CompiledFunction,
    ensures
        ({
            let f = compile_stmts(c, program, 0)->Ok_0.constants[i]->CompiledFunction_0;
            &&& f.num_parameters <= f.num_locals
            &&& boundary(f.instructions, f.instructions.len() as int)
            &&& (instruction_at(f.instructions, at) && is_local(f.instructions[at]) ==> at + 1
                < f.instructions.len() && f.instructions[at + 1] < f.num_locals)
        }),
{
    lemma_program_sound(c, program);
}

} // verus!
