//! The compiler: a syntax tree to bytecode, in one pass, with nested
//! scopes and closure conversion.
//!
//! What compiling means is laid down in [`model`]; the functions here
//! carry it out on the compiler's vectors.

pub mod laws;
pub mod model;
pub mod symbol_table;

use crate::code::{make, make_spec, Opcode};
use crate::compiler::model::{
    binds_itself, close_function, compile_branch, compile_expr, compile_exprs, compile_function,
    compile_if, compile_infix, compile_let, compile_pairs, compile_slice, compile_stmt,
    compile_stmts, end_body, insert_index, key_texts, sort_order, text_le, undefined_variable_text,
    unknown_operator_text, with_builtins, CompilerView, Emitted, ScopeView,
};
use crate::compiler::symbol_table::{
    copy_symbols, symbols_view, Symbol, SymbolScope, SymbolTable, TableView,
};
use crate::error::CompileError;
use crate::lexer::token::Token;
use crate::object::{
    copy_bytes, copy_objects, lemma_objects_view_push, objects_view, Builtin, CompiledFunction,
    Object,
};
use crate::parser::ast::{
    exprs_view, pairs_view, stmts_view, Expression, ExpressionView, Node, Program, Statement,
};
use crate::text::{chars_of, push_str, texts};
use vstd::prelude::*;

verus! {

/// What the compiler hands to the virtual machine: the instructions of the
/// main program and the constants they refer to.
#[derive(Debug, PartialEq)]
pub struct Bytecode {
    pub instructions: Vec<u8>,
    pub constants: Vec<Object>,
}

/// The opcode of an emitted instruction and the offset it stands at.
#[derive(Debug, PartialEq, Eq, Clone, Copy, Structural)]
pub struct EmittedInstruction {
    pub opcode: Opcode,
    pub position: usize,
}

/// A record of an emitted instruction as a mathematical value.
pub open spec fn record_view(record: Option<EmittedInstruction>) -> Option<Emitted> {
    match record {
        Some(r) => Some(Emitted { opcode: r.opcode, position: r.position as int }),
        None => None,
    }
}

/// The instructions of one function, or of the main program, while they
/// are being emitted, with a record of the last two instructions.
#[derive(Debug, PartialEq)]
pub struct CompilationScope {
    pub instructions: Vec<u8>,
    pub last_instruction: Option<EmittedInstruction>,
    pub previous_instruction: Option<EmittedInstruction>,
}

#[derive(Debug, PartialEq)]
pub struct Compiler {
    pub constants: Vec<Object>,
    pub symbol_table: SymbolTable,
    pub scopes: Vec<CompilationScope>,
    pub scope_index: usize,
}

impl View for CompilationScope {
    type V = ScopeView;

    open spec fn view(&self) -> ScopeView {
        ScopeView {
            instructions: self.instructions@,
            last: record_view(self.last_instruction),
            previous: record_view(self.previous_instruction),
        }
    }
}

impl Clone for Bytecode {
    fn clone(&self) -> (r: Bytecode)
        ensures
            r.instructions@ == self.instructions@,
            objects_view(r.constants@) == objects_view(self.constants@),
    {
        let constants = copy_objects(&self.constants, 0, self.constants.len());
        assert(objects_view(self.constants@).subrange(0, self.constants.len() as int)
            =~= objects_view(self.constants@));
        Bytecode { instructions: copy_bytes(&self.instructions), constants }
    }
}

impl Clone for CompilationScope {
    fn clone(&self) -> (r: CompilationScope)
        ensures
            r@ == self@,
    {
        CompilationScope {
            instructions: copy_bytes(&self.instructions),
            last_instruction: self.last_instruction,
            previous_instruction: self.previous_instruction,
        }
    }
}

/// The views of a stack of scopes.
pub open spec fn scopes_view(scopes: Seq<CompilationScope>) -> Seq<ScopeView> {
    Seq::new(scopes.len(), |i: int| scopes[i]@)
}

impl View for Compiler {
    type V = CompilerView;

    open spec fn view(&self) -> CompilerView {
        CompilerView {
            constants: objects_view(self.constants@),
            symbols: self.symbol_table@,
            scopes: scopes_view(self.scopes@),
        }
    }
}

/// Whether a call ended as the model says: with the state it gives, or
/// with the error it gives.
pub open spec fn compiled(
    r: Result<(), CompileError>,
    after: CompilerView,
    expected: Result<CompilerView, Seq<char>>,
) -> bool {
    match expected {
        Ok(c) => r is Ok && after == c,
        Err(e) => r is Err && r->Err_0@ == e,
    }
}

/// The indices of a list as mathematical integers.
pub open spec fn indices_view(order: Seq<usize>) -> Seq<int> {
    Seq::new(order.len(), |i: int| order[i] as int)
}

/// Whether `a` is not greater than `b` in the order of dictionaries.
fn text_not_greater(a: &Vec<char>, b: &Vec<char>) -> (r: bool)
    ensures
        r == text_le(a@, b@, 0),
{
    let mut i: usize = 0;
    while i < a.len()
        invariant
            i <= a.len(),
            text_le(a@, b@, 0) == text_le(a@, b@, i as int),
        decreases a.len() - i,
    {
        if i >= b.len() {
            return false;
        }
        if a[i] != b[i] {
            return (a[i] as u32) < (b[i] as u32);
        }
        i += 1;
    }
    true
}

/// What is behind position `j` of a sorted list is greater than `k`, so
/// `k` goes in somewhere in the first `j`.
proof fn lemma_insert_index(order: Seq<int>, keys: Seq<Seq<char>>, k: int, j: int)
    requires
        0 <= j <= order.len(),
        forall|p: int| j <= p < order.len() ==> !text_le(keys[#[trigger] order[p]], keys[k], 0),
    ensures
        insert_index(order, keys, k) == insert_index(order.subrange(0, j), keys, k)
            + order.subrange(j, order.len() as int),
    decreases order.len() - j,
{
    if j == order.len() {
        assert(order.subrange(0, j) =~= order);
        assert(insert_index(order, keys, k) + order.subrange(j, order.len() as int)
            =~= insert_index(order, keys, k));
    } else {
        lemma_insert_index(order.drop_last(), keys, k, j);
        assert(order.drop_last().subrange(0, j) =~= order.subrange(0, j));
        assert(order.drop_last().subrange(j, order.len() - 1).push(order.last())
            =~= order.subrange(j, order.len() as int));
        assert(insert_index(order, keys, k) =~= insert_index(order.subrange(0, j), keys, k)
            + order.subrange(j, order.len() as int));
    }
}

/// The indices of the pairs of a hash literal in the order of the printed
/// forms of their keys; pairs whose keys print alike keep their order.
fn key_order(pairs: &Vec<(Expression, Expression)>) -> (order: Vec<usize>)
    ensures
        indices_view(order@) == sort_order(
            key_texts(pairs_view(pairs@)),
            pairs.len() as nat,
        ),
        forall|i: int| 0 <= i < order.len() ==> order[i] < pairs.len(),
{
    let ghost keys = key_texts(pairs_view(pairs@));
    let mut printed: Vec<Vec<char>> = Vec::new();
    let mut i: usize = 0;
    while i < pairs.len()
        invariant
            i <= pairs.len(),
            printed.len() == i,
            keys == key_texts(pairs_view(pairs@)),
            forall|j: int| 0 <= j < i ==> (#[trigger] printed[j])@ == keys[j],
        decreases pairs.len() - i,
    {
        let text = pairs[i].0.to_string();
        printed.push(chars_of(text.as_str()));
        i += 1;
    }
    let mut order: Vec<usize> = Vec::new();
    let mut k: usize = 0;
    assert(indices_view(order@) =~= sort_order(keys, 0));
    while k < pairs.len()
        invariant
            k <= pairs.len(),
            printed.len() == pairs.len(),
            order.len() == k,
            forall|j: int| 0 <= j < printed.len() ==> (#[trigger] printed[j])@ == keys[j],
            indices_view(order@) == sort_order(keys, k as nat),
            forall|i: int| 0 <= i < order.len() ==> order[i] < pairs.len(),
        decreases pairs.len() - k,
    {
        let ghost sorted = indices_view(order@);
        order.push(k);
        let mut j: usize = order.len() - 1;
        while j > 0 && !text_not_greater(&printed[order[j - 1]], &printed[k])
            invariant
                j < order.len(),
                order.len() == k + 1,
                k < pairs.len(),
                printed.len() == pairs.len(),
                sorted.len() == k,
                forall|p: int| 0 <= p < printed.len() ==> (#[trigger] printed[p])@ == keys[p],
                forall|i: int| 0 <= i < order.len() ==> order[i] < pairs.len(),
                indices_view(order@) == sorted.subrange(0, j as int).push(k as int)
                    + sorted.subrange(j as int, k as int),
                forall|p: int|
                    j <= p < sorted.len() ==> !text_le(keys[#[trigger] sorted[p]], keys[k as int], 0),
            decreases j,
        {
            let ghost before = order@;
            let moved = order[j - 1];
            assert(indices_view(before)[j - 1] == sorted[j - 1]);
            order[j] = moved;
            order[j - 1] = k;
            assert(order@ =~= before.update(j as int, moved).update(j - 1, k));
            assert forall|p: int| 0 <= p < order.len() implies indices_view(order@)[p] == (
            sorted.subrange(0, j - 1).push(k as int) + sorted.subrange(j - 1, k as int))[p] by {
                if p < j - 1 {
                    assert(indices_view(before)[p] == sorted[p]);
                } else if p == j - 1 {
                } else if p == j {
                } else {
                    assert(indices_view(before)[p] == sorted[p - 1]);
                }
            }
            j -= 1;
            assert(indices_view(order@) =~= sorted.subrange(0, j as int).push(k as int)
                + sorted.subrange(j as int, k as int));
        }
        proof {
            lemma_insert_index(sorted, keys, k as int, j as int);
            let head = sorted.subrange(0, j as int);
            if j > 0 {
                assert(head.last() == sorted[j - 1]);
                assert(indices_view(order@)[j - 1] == sorted[j - 1]);
                assert(order[j - 1] as int == sorted[j - 1]);
                assert(text_le(keys[head.last()], keys[k as int], 0));
            }
            assert(insert_index(head, keys, k as int) =~= head.push(k as int));
        }
        k += 1;
    }
    order
}

impl Clone for Compiler {
    fn clone(&self) -> (r: Compiler)
        ensures
            r@ == self@,
            r.scope_index == self.scope_index,
            r.scopes.len() == self.scopes.len(),
    {
        let constants = copy_objects(&self.constants, 0, self.constants.len());
        assert(objects_view(self.constants@).subrange(0, self.constants.len() as int)
            =~= objects_view(self.constants@));
        let mut scopes: Vec<CompilationScope> = Vec::new();
        let mut i: usize = 0;
        while i < self.scopes.len()
            invariant
                i <= self.scopes.len(),
                scopes.len() == i,
                forall|j: int| 0 <= j < i ==> scopes[j]@ == self.scopes[j]@,
            decreases self.scopes.len() - i,
        {
            scopes.push(self.scopes[i].clone());
            i += 1;
        }
        let r = Compiler {
            constants,
            symbol_table: self.symbol_table.clone(),
            scopes,
            scope_index: self.scope_index,
        };
        assert(r@.scopes =~= self@.scopes);
        r
    }
}

impl Compiler {
    /// There is a current scope, and `scope_index` is its index.
    pub open spec fn wf(&self) -> bool {
        self.scopes.len() >= 1 && self.scope_index + 1 == self.scopes.len()
    }

    /// A compiler that has compiled nothing.
    pub fn new() -> (compiler: Compiler)
        ensures
            compiler.wf(),
            compiler@ == CompilerView::fresh(),
    {
        let mut table = SymbolTable::new(None);
        let mut i: usize = 0;
        while i < 6
            invariant
                i <= 6,
                with_builtins(TableView::empty(None), 0) == with_builtins(table@, i as nat),
            decreases 6 - i,
        {
            match Builtin::from_index(i) {
                Some(builtin) => {
                    table.define_builtin(i, builtin.name_str());
                },
                None => {},
            }
            i += 1;
        }
        let main_scope = CompilationScope {
            instructions: Vec::new(),
            last_instruction: None,
            previous_instruction: None,
        };
        let mut scopes: Vec<CompilationScope> = Vec::new();
        scopes.push(main_scope);
        let compiler = Compiler { constants: Vec::new(), symbol_table: table, scopes, scope_index: 0 };
        assert(compiler@.scopes =~= CompilerView::fresh().scopes);
        assert(compiler@.constants =~= Seq::empty());
        compiler
    }

    /// Makes the compiler ready for the next program: one empty scope,
    /// and the symbol table of the outermost scope. The constants and the
    /// definitions of the outermost scope stay.
    pub fn reset(&mut self)
        ensures
            final(self).wf(),
            final(self)@ == (CompilerView {
                constants: old(self)@.constants,
                symbols: old(self)@.symbols.outermost(),
                scopes: seq![ScopeView::empty()],
            }),
    {
        let main_scope = CompilationScope {
            instructions: Vec::new(),
            last_instruction: None,
            previous_instruction: None,
        };
        let mut scopes: Vec<CompilationScope> = Vec::new();
        scopes.push(main_scope);
        self.scopes = scopes;
        self.scope_index = 0;
        assert(self@.scopes =~= seq![ScopeView::empty()]);
        loop
            invariant
                self.wf(),
                self@.constants == old(self)@.constants,
                self@.scopes == seq![ScopeView::empty()],
                self@.symbols.outermost() == old(self)@.symbols.outermost(),
            ensures
                self@.symbols.outer is None,
            decreases self@.symbols.depth(),
        {
            match self.symbol_table.outer.take() {
                Some(outer) => {
                    self.symbol_table = *outer;
                },
                None => {
                    break ;
                },
            }
        }
    }

    /// Opens a scope for a function's body.
    pub fn enter_scope(&mut self)
        requires
            old(self).wf(),
        ensures
            final(self).wf(),
            final(self).scopes.len() == old(self).scopes.len() + 1,
            final(self)@ == old(self)@.enter_scope(),
    {
        let scope = CompilationScope {
            instructions: Vec::new(),
            last_instruction: None,
            previous_instruction: None,
        };
        self.scopes.push(scope);
        self.scope_index += 1;
        let mut table = SymbolTable::new(None);
        std::mem::swap(&mut table, &mut self.symbol_table);
        self.symbol_table = SymbolTable::new(Some(table));
        assert(self@.scopes =~= old(self)@.enter_scope().scopes);
    }

    /// Closes the current scope and hands over its instructions.
    pub fn leave_scope(&mut self) -> (instructions: Vec<u8>)
        requires
            old(self).wf(),
            old(self).scopes.len() >= 2,
        ensures
            final(self).wf(),
            final(self).scopes.len() == old(self).scopes.len() - 1,
            instructions@ == old(self)@.code(),
            final(self)@ == old(self)@.leave_scope(),
    {
        let scope = match self.scopes.pop() {
            Some(scope) => scope,
            None => CompilationScope {
                instructions: Vec::new(),
                last_instruction: None,
                previous_instruction: None,
            },
        };
        self.scope_index -= 1;
        match self.symbol_table.outer.take() {
            Some(outer) => {
                self.symbol_table = *outer;
            },
            None => {},
        }
        assert(self@.scopes =~= old(self)@.leave_scope().scopes);
        scope.instructions
    }

    /// Adds a constant and returns its index.
    pub fn add_constant(&mut self, object: Object) -> (index: usize)
        ensures
            final(self).scopes == old(self).scopes,
            final(self).scope_index == old(self).scope_index,
            index == old(self)@.constants.len(),
            final(self)@ == old(self)@.add_constant(object@),
    {
        proof {
            lemma_objects_view_push(self.constants@, object);
        }
        self.constants.push(object);
        self.constants.len() - 1
    }

    /// The instructions of the current scope.
    pub fn current_instructions(&self) -> (code: &Vec<u8>)
        requires
            self.wf(),
        ensures
            code@ == self@.code(),
    {
        &self.scopes[self.scope_index].instructions
    }

    /// Takes the current scope out of the stack of scopes.
    fn take_scope(&mut self) -> (scope: CompilationScope)
        requires
            old(self).wf(),
        ensures
            scope@ == old(self)@.scope(),
            final(self).scopes@ == old(self).scopes@.drop_last(),
            final(self).scope_index == old(self).scope_index,
            final(self).constants == old(self).constants,
            final(self).symbol_table == old(self).symbol_table,
    {
        match self.scopes.pop() {
            Some(scope) => scope,
            None => CompilationScope {
                instructions: Vec::new(),
                last_instruction: None,
                previous_instruction: None,
            },
        }
    }

    /// Puts a scope back as the current one.
    fn put_scope(&mut self, scope: CompilationScope, Ghost(before): Ghost<CompilerView>)
        requires
            old(self).scope_index == old(self).scopes.len(),
            before.scopes.len() == old(self).scopes.len() + 1,
            scopes_view(old(self).scopes@) == before.scopes.drop_last(),
            before.constants == objects_view(old(self).constants@),
            before.symbols == old(self).symbol_table@,
        ensures
            final(self).wf(),
            final(self).scopes.len() == before.scopes.len(),
            final(self)@ == before.with_scope(scope@),
    {
        let ghost kept = scopes_view(self.scopes@);
        self.scopes.push(scope);
        assert forall|i: int| 0 <= i < self.scopes.len() implies self@.scopes[i]
            == before.with_scope(scope@).scopes[i] by {
            if i < self.scopes.len() - 1 {
                assert(self@.scopes[i] == kept[i]);
                assert(kept[i] == before.scopes.drop_last()[i]);
            }
        }
        assert(self@.scopes =~= before.with_scope(scope@).scopes);
    }

    /// Appends the bytes of an instruction to the current scope and
    /// returns the offset at which it stands.
    pub fn add_instruction(&mut self, instruction: Vec<u8>) -> (position: usize)
        requires
            old(self).wf(),
        ensures
            final(self).wf(),
            final(self).scopes.len() == old(self).scopes.len(),
            position == old(self)@.code().len(),
            final(self)@ == old(self)@.with_scope(
                ScopeView {
                    instructions: old(self)@.code() + instruction@,
                    ..old(self)@.scope()
                },
            ),
    {
        let ghost before = self@;
        let mut scope = self.take_scope();
        assert(scopes_view(self.scopes@) =~= before.scopes.drop_last());
        let position = scope.instructions.len();
        let mut i: usize = 0;
        while i < instruction.len()
            invariant
                i <= instruction.len(),
                record_view(scope.last_instruction) == before.scope().last,
                record_view(scope.previous_instruction) == before.scope().previous,
                scope.instructions@ == before.code() + instruction@.subrange(0, i as int),
            decreases instruction.len() - i,
        {
            scope.instructions.push(instruction[i]);
            i += 1;
            assert(scope.instructions@ =~= before.code() + instruction@.subrange(0, i as int));
        }
        assert(instruction@.subrange(0, i as int) =~= instruction@);
        self.put_scope(scope, Ghost(before));
        position
    }

    /// Records `opcode` at `position` as the last instruction.
    pub fn set_last_instruction(&mut self, opcode: Opcode, position: usize)
        requires
            old(self).wf(),
        ensures
            final(self).wf(),
            final(self).scopes.len() == old(self).scopes.len(),
            final(self)@ == old(self)@.with_scope(
                ScopeView {
                    last: Some(Emitted { opcode, position: position as int }),
                    previous: old(self)@.scope().last,
                    ..old(self)@.scope()
                },
            ),
    {
        let ghost before = self@;
        let mut scope = self.take_scope();
        assert(scopes_view(self.scopes@) =~= before.scopes.drop_last());
        scope.previous_instruction = scope.last_instruction;
        scope.last_instruction = Some(EmittedInstruction { opcode, position });
        self.put_scope(scope, Ghost(before));
    }

    /// Emits an instruction and returns the offset at which it stands.
    pub fn emit(&mut self, opcode: Opcode, operands: Vec<u64>) -> (position: usize)
        requires
            old(self).wf(),
            operands.len() <= opcode.widths().len(),
        ensures
            final(self).wf(),
            final(self).scopes.len() == old(self).scopes.len(),
            position == old(self)@.code().len(),
            final(self)@ == old(self)@.emit(opcode, operands@),
    {
        let instruction = make(opcode, operands);
        let position = self.add_instruction(instruction);
        self.set_last_instruction(opcode, position);
        assert(self@.scopes =~= old(self)@.emit(opcode, operands@).scopes);
        position
    }

    /// Whether the last instruction emitted in the current scope is
    /// `opcode`.
    pub fn last_instruction_is(&self, opcode: Opcode) -> (b: bool)
        requires
            self.wf(),
        ensures
            b == self@.last_is(opcode),
    {
        match self.scopes[self.scope_index].last_instruction {
            Some(instruction) => instruction.opcode == opcode,
            None => false,
        }
    }

    /// Cuts the last instruction off the current scope.
    pub fn remove_last_pop(&mut self)
        requires
            old(self).wf(),
        ensures
            final(self).wf(),
            final(self).scopes.len() == old(self).scopes.len(),
            final(self)@ == old(self)@.remove_last(),
    {
        let ghost before = self@;
        let mut scope = self.take_scope();
        assert(scopes_view(self.scopes@) =~= before.scopes.drop_last());
        match scope.last_instruction {
            Some(instruction) => {
                scope.instructions.truncate(instruction.position);
                scope.last_instruction = scope.previous_instruction;
            },
            None => {},
        }
        self.put_scope(scope, Ghost(before));
        assert(self@.scopes =~= before.remove_last().scopes);
    }

    /// Writes an instruction over the bytes from `position` on; does
    /// nothing where it does not fit into the current scope.
    pub fn replace_instruction(&mut self, position: usize, new_instruction: Vec<u8>)
        requires
            old(self).wf(),
        ensures
            final(self).wf(),
            final(self).scopes.len() == old(self).scopes.len(),
            final(self)@ == old(self)@.replace_instruction(position as int, new_instruction@),
    {
        let ghost before = self@;
        let ghost code = before.code();
        let mut scope = self.take_scope();
        assert(scopes_view(self.scopes@) =~= before.scopes.drop_last());
        let len = scope.instructions.len();
        if position > len || new_instruction.len() > len - position {
            self.put_scope(scope, Ghost(before));
            assert(self@.scopes =~= before.scopes);
            return ;
        }
        let mut i: usize = 0;
        while i < new_instruction.len()
            invariant
                i <= new_instruction.len(),
                position + new_instruction.len() <= len,
                len == code.len(),
                record_view(scope.last_instruction) == before.scope().last,
                record_view(scope.previous_instruction) == before.scope().previous,
                scope.instructions@ == Seq::new(
                    code.len(),
                    |k: int|
                        if position <= k < position + i {
                            new_instruction@[k - position]
                        } else {
                            code[k]
                        },
                ),
            decreases new_instruction.len() - i,
        {
            scope.instructions[position + i] = new_instruction[i];
            i += 1;
            assert(scope.instructions@ =~= Seq::new(
                code.len(),
                |k: int|
                    if position <= k < position + i {
                        new_instruction@[k - position]
                    } else {
                        code[k]
                    },
            ));
        }
        self.put_scope(scope, Ghost(before));
    }

    /// Turns the last instruction, an `OpPop`, into `OpReturnValue`.
    pub fn replace_last_pop_with_return(&mut self) -> (r: Result<(), CompileError>)
        requires
            old(self).wf(),
        ensures
            final(self).wf(),
            final(self).scopes.len() == old(self).scopes.len(),
            match old(self)@.scope().last {
                Some(_) => r is Ok && final(self)@ == old(self)@.replace_last_pop_with_return(),
                None => r is Err && r->Err_0@ == "no last instruction to replace"@ && final(self)@
                    == old(self)@,
            },
    {
        let last_pos = match self.scopes[self.scope_index].last_instruction {
            Some(instruction) => instruction.position,
            None => {
                return Err(CompileError::new("no last instruction to replace"));
            },
        };
        self.replace_instruction(last_pos, make(Opcode::OpReturnValue, Vec::new()));
        let ghost replaced = self@;
        let mut scope = self.take_scope();
        assert(scopes_view(self.scopes@) =~= replaced.scopes.drop_last());
        scope.last_instruction = Some(
            EmittedInstruction { opcode: Opcode::OpReturnValue, position: last_pos },
        );
        self.put_scope(scope, Ghost(replaced));
        Ok(())
    }

    /// Gives the instruction at `position` a new operand; does nothing
    /// where no instruction can stand there.
    pub fn change_operand(&mut self, position: usize, operand: u64)
        requires
            old(self).wf(),
        ensures
            final(self).wf(),
            final(self).scopes.len() == old(self).scopes.len(),
            final(self)@ == old(self)@.change_operand(position as int, operand),
    {
        let code = self.current_instructions();
        if position >= code.len() {
            return ;
        }
        let op = match Opcode::from_byte(code[position]) {
            Some(op) => op,
            None => {
                return ;
            },
        };
        let mut operands: Vec<u64> = Vec::new();
        operands.push(operand);
        let new_instruction = match op {
            Opcode::OpConstant
            | Opcode::OpJumpNotTruthy
            | Opcode::OpJump
            | Opcode::OpGetGlobal
            | Opcode::OpSetGlobal
            | Opcode::OpArray
            | Opcode::OpHash
            | Opcode::OpCall
            | Opcode::OpGetLocal
            | Opcode::OpSetLocal
            | Opcode::OpGetBuiltin
            | Opcode::OpGetFree
            | Opcode::OpClosure => make(op, operands),
            _ => {
                let mut byte: Vec<u8> = Vec::new();
                byte.push(op.to_byte());
                proof {
                    reveal_with_fuel(crate::code::encode_operands, 2);
                    assert(byte@ =~= make_spec(op, operands@));
                }
                byte
            },
        };
        assert(operands@ =~= seq![operand]);
        self.replace_instruction(position, new_instruction);
    }

    /// The bytecode compiled so far: the instructions of the current
    /// scope and all constants.
    pub fn bytecode(&self) -> (bytecode: Bytecode)
        requires
            self.wf(),
        ensures
            bytecode.instructions@ == self@.code(),
            objects_view(bytecode.constants@) == self@.constants,
    {
        let constants = copy_objects(&self.constants, 0, self.constants.len());
        assert(objects_view(self.constants@).subrange(0, self.constants.len() as int)
            =~= objects_view(self.constants@));
        Bytecode { instructions: copy_bytes(self.current_instructions()), constants }
    }
}

/// What compiling a node means: the statements of a program in order, a
/// statement, or an expression.
pub open spec fn compile_node_spec(c: CompilerView, node: Node) -> Result<CompilerView, Seq<char>> {
    match node {
        Node::Program(program) => compile_stmts(c, program@, 0),
        Node::Statement(statement) => compile_stmt(c, statement@),
        Node::Expression(expression) => compile_expr(c, expression@),
    }
}

impl Compiler {
    /// Compiles a program into the current scope. The first error ends
    /// the compilation.
    pub fn compile(&mut self, program: &Program) -> (r: Result<(), CompileError>)
        requires
            old(self).wf(),
        ensures
            final(self).wf(),
            r is Ok ==> final(self).scopes.len() == old(self).scopes.len(),
            compiled(r, final(self)@, compile_stmts(old(self)@, program@, 0)),
    {
        self.compile_program(program)
    }

    /// Compiles a program, a statement or an expression.
    pub fn compile_node(&mut self, node: &Node) -> (r: Result<(), CompileError>)
        requires
            old(self).wf(),
        ensures
            final(self).wf(),
            r is Ok ==> final(self).scopes.len() == old(self).scopes.len(),
            compiled(r, final(self)@, compile_node_spec(old(self)@, *node)),
    {
        match node {
            Node::Program(program) => self.compile_program(program),
            Node::Statement(statement) => self.compile_statement(statement),
            Node::Expression(expression) => self.compile_expression(expression),
        }
    }

    /// Compiles the statements of a program in order.
    pub fn compile_program(&mut self, program: &Program) -> (r: Result<(), CompileError>)
        requires
            old(self).wf(),
        ensures
            final(self).wf(),
            r is Ok ==> final(self).scopes.len() == old(self).scopes.len(),
            compiled(r, final(self)@, compile_stmts(old(self)@, program@, 0)),
    {
        self.compile_statements(&program.statements)
    }

    /// Compiles statements in order.
    fn compile_statements(&mut self, statements: &Vec<Statement>) -> (r: Result<(), CompileError>)
        requires
            old(self).wf(),
        ensures
            final(self).wf(),
            r is Ok ==> final(self).scopes.len() == old(self).scopes.len(),
            compiled(r, final(self)@, compile_stmts(old(self)@, stmts_view(statements@), 0)),
        decreases statements, 0nat,
    {
        let ghost views = stmts_view(statements@);
        let mut i: usize = 0;
        while i < statements.len()
            invariant
                i <= statements.len(),
                self.wf(),
                self.scopes.len() == old(self).scopes.len(),
                views == stmts_view(statements@),
                compile_stmts(old(self)@, views, 0) == compile_stmts(self@, views, i as int),
            decreases statements.len() - i,
        {
            match self.compile_statement(&statements[i]) {
                Ok(()) => {},
                Err(e) => {
                    return Err(e);
                },
            }
            i += 1;
        }
        Ok(())
    }

    /// Compiles expressions in order.
    fn compile_expressions(&mut self, expressions: &Vec<Expression>) -> (r: Result<
        (),
        CompileError,
    >)
        requires
            old(self).wf(),
        ensures
            final(self).wf(),
            r is Ok ==> final(self).scopes.len() == old(self).scopes.len(),
            compiled(r, final(self)@, compile_exprs(old(self)@, exprs_view(expressions@), 0)),
        decreases expressions, 0nat,
    {
        let ghost views = exprs_view(expressions@);
        let mut i: usize = 0;
        while i < expressions.len()
            invariant
                i <= expressions.len(),
                self.wf(),
                self.scopes.len() == old(self).scopes.len(),
                views == exprs_view(expressions@),
                compile_exprs(old(self)@, views, 0) == compile_exprs(self@, views, i as int),
            decreases expressions.len() - i,
        {
            match self.compile_expression(&expressions[i]) {
                Ok(()) => {},
                Err(e) => {
                    return Err(e);
                },
            }
            i += 1;
        }
        Ok(())
    }

    /// Compiles the pairs of a hash literal, key then value, in the order
    /// that `order` gives.
    fn compile_hash_pairs(&mut self, pairs: &Vec<(Expression, Expression)>, order: &Vec<usize>) -> (r:
        Result<(), CompileError>)
        requires
            old(self).wf(),
            forall|i: int| 0 <= i < order.len() ==> order[i] < pairs.len(),
        ensures
            final(self).wf(),
            r is Ok ==> final(self).scopes.len() == old(self).scopes.len(),
            compiled(
                r,
                final(self)@,
                compile_pairs(old(self)@, pairs_view(pairs@), indices_view(order@), 0),
            ),
        decreases pairs, 0nat,
    {
        let ghost views = pairs_view(pairs@);
        let ghost indices = indices_view(order@);
        let mut i: usize = 0;
        while i < order.len()
            invariant
                i <= order.len(),
                self.wf(),
                self.scopes.len() == old(self).scopes.len(),
                views == pairs_view(pairs@),
                indices == indices_view(order@),
                forall|i: int| 0 <= i < order.len() ==> order[i] < pairs.len(),
                compile_pairs(old(self)@, views, indices, 0) == compile_pairs(
                    self@,
                    views,
                    indices,
                    i as int,
                ),
            decreases order.len() - i,
        {
            let at = order[i];
            assert(indices[i as int] == at);
            match self.compile_expression(&pairs[at].0) {
                Ok(()) => {},
                Err(e) => {
                    return Err(e);
                },
            }
            match self.compile_expression(&pairs[at].1) {
                Ok(()) => {},
                Err(e) => {
                    return Err(e);
                },
            }
            i += 1;
        }
        Ok(())
    }

    /// Defines `name` in the current scope.
    fn define(&mut self, name: &str) -> (r: Result<Symbol, CompileError>)
        requires
            old(self).wf(),
        ensures
            final(self).wf(),
            final(self).scopes.len() == old(self).scopes.len(),
            match old(self)@.define(name@) {
                Ok(c) => r is Ok && r->Ok_0@ == old(self)@.symbols.defined(name@) && final(self)@
                    == c,
                Err(e) => r is Err && r->Err_0@ == e,
            },
    {
        if self.symbol_table.num_definitions == usize::MAX {
            return Err(CompileError::new("too many definitions"));
        }
        Ok(self.symbol_table.define(name))
    }

    /// Emits the instruction that pushes what `symbol` stands for.
    fn load_symbol(&mut self, symbol: &Symbol)
        requires
            old(self).wf(),
        ensures
            final(self).wf(),
            final(self).scopes.len() == old(self).scopes.len(),
            final(self)@ == old(self)@.load_symbol(symbol@),
    {
        let mut operands: Vec<u64> = Vec::new();
        match symbol.scope {
            SymbolScope::Global => {
                operands.push(symbol.index as u64);
                assert(operands@ =~= seq![symbol.index as u64]);
                self.emit(Opcode::OpGetGlobal, operands);
            },
            SymbolScope::Local => {
                operands.push(symbol.index as u64);
                assert(operands@ =~= seq![symbol.index as u64]);
                self.emit(Opcode::OpGetLocal, operands);
            },
            SymbolScope::Builtin => {
                operands.push(symbol.index as u64);
                assert(operands@ =~= seq![symbol.index as u64]);
                self.emit(Opcode::OpGetBuiltin, operands);
            },
            SymbolScope::Free => {
                operands.push(symbol.index as u64);
                assert(operands@ =~= seq![symbol.index as u64]);
                self.emit(Opcode::OpGetFree, operands);
            },
            SymbolScope::Function => {
                assert(operands@ =~= Seq::empty());
                self.emit(Opcode::OpCurrentClosure, operands);
            },
        }
    }

    /// Emits the instruction that stores the top of the stack in the
    /// variable that `symbol` stands for.
    fn store_symbol(&mut self, symbol: &Symbol)
        requires
            old(self).wf(),
        ensures
            final(self).wf(),
            final(self).scopes.len() == old(self).scopes.len(),
            final(self)@ == old(self)@.store_symbol(symbol@),
    {
        let mut operands: Vec<u64> = Vec::new();
        operands.push(symbol.index as u64);
        assert(operands@ =~= seq![symbol.index as u64]);
        if symbol.scope == SymbolScope::Global {
            self.emit(Opcode::OpSetGlobal, operands);
        } else {
            self.emit(Opcode::OpSetLocal, operands);
        }
    }

    /// Emits an instruction without operands.
    fn emit_plain(&mut self, opcode: Opcode)
        requires
            old(self).wf(),
        ensures
            final(self).wf(),
            final(self).scopes.len() == old(self).scopes.len(),
            final(self)@ == old(self)@.emit(opcode, Seq::empty()),
    {
        let operands: Vec<u64> = Vec::new();
        assert(operands@ =~= Seq::empty());
        self.emit(opcode, operands);
    }

    /// Emits an instruction with one operand and returns its offset.
    fn emit_with(&mut self, opcode: Opcode, operand: u64) -> (position: usize)
        requires
            old(self).wf(),
            opcode.widths().len() >= 1,
        ensures
            final(self).wf(),
            final(self).scopes.len() == old(self).scopes.len(),
            position == old(self)@.code().len(),
            final(self)@ == old(self)@.emit(opcode, seq![operand]),
    {
        let mut operands: Vec<u64> = Vec::new();
        operands.push(operand);
        assert(operands@ =~= seq![operand]);
        self.emit(opcode, operands)
    }

    /// Compiles a statement.
    pub fn compile_statement(&mut self, statement: &Statement) -> (r: Result<(), CompileError>)
        requires
            old(self).wf(),
        ensures
            final(self).wf(),
            r is Ok ==> final(self).scopes.len() == old(self).scopes.len(),
            compiled(r, final(self)@, compile_stmt(old(self)@, statement@)),
        decreases statement, 1nat,
    {
        match statement {
            Statement::Expression(expression) => {
                match self.compile_expression(expression) {
                    Ok(()) => {},
                    Err(e) => {
                        return Err(e);
                    },
                }
                self.emit_plain(Opcode::OpPop);
                Ok(())
            },
            Statement::Block(statements) => self.compile_statements(statements),
            Statement::Let(_, _) => self.compile_let(statement),
            Statement::Return(expression) => {
                match self.compile_expression(expression) {
                    Ok(()) => {},
                    Err(e) => {
                        return Err(e);
                    },
                }
                self.emit_plain(Opcode::OpReturnValue);
                Ok(())
            },
        }
    }

    /// Compiles a `let`.
    fn compile_let(&mut self, statement: &Statement) -> (r: Result<(), CompileError>)
        requires
            old(self).wf(),
            statement is Let,
        ensures
            final(self).wf(),
            r is Ok ==> final(self).scopes.len() == old(self).scopes.len(),
            compiled(r, final(self)@, compile_let(old(self)@, statement@)),
        decreases statement, 0nat,
    {
        if let Statement::Let(name, expression) = statement {
            let own = match expression {
                Expression::Function(_, _, Some(own)) => *own == *name,
                _ => false,
            };
            assert(own == binds_itself(name@, expression@));
            if own {
                let symbol = match self.define(name.as_str()) {
                    Ok(symbol) => symbol,
                    Err(e) => {
                        return Err(e);
                    },
                };
                match self.compile_expression(expression) {
                    Ok(()) => {},
                    Err(e) => {
                        return Err(e);
                    },
                }
                self.store_symbol(&symbol);
            } else {
                match self.compile_expression(expression) {
                    Ok(()) => {},
                    Err(e) => {
                        return Err(e);
                    },
                }
                let symbol = match self.define(name.as_str()) {
                    Ok(symbol) => symbol,
                    Err(e) => {
                        return Err(e);
                    },
                };
                self.store_symbol(&symbol);
            }
        }
        Ok(())
    }

    /// Compiles an expression.
    pub fn compile_expression(&mut self, expression: &Expression) -> (r: Result<
        (),
        CompileError,
    >)
        requires
            old(self).wf(),
        ensures
            final(self).wf(),
            r is Ok ==> final(self).scopes.len() == old(self).scopes.len(),
            compiled(r, final(self)@, compile_expr(old(self)@, expression@)),
        decreases expression, 1nat,
    {
        match expression {
            Expression::Integer(value) => {
                let constant = self.add_constant(Object::Integer(*value));
                self.emit_with(Opcode::OpConstant, constant as u64);
                Ok(())
            },
            Expression::Boolean(value) => {
                if *value {
                    self.emit_plain(Opcode::OpTrue);
                } else {
                    self.emit_plain(Opcode::OpFalse);
                }
                Ok(())
            },
            Expression::String(value) => {
                let constant = self.add_constant(Object::String(value.clone()));
                self.emit_with(Opcode::OpConstant, constant as u64);
                Ok(())
            },
            Expression::Hash(pairs) => {
                let order = key_order(pairs);
                match self.compile_hash_pairs(pairs, &order) {
                    Ok(()) => {},
                    Err(e) => {
                        return Err(e);
                    },
                }
                self.emit_with(Opcode::OpHash, (pairs.len() as u64).wrapping_mul(2));
                Ok(())
            },
            Expression::Array(elements) => {
                match self.compile_expressions(elements) {
                    Ok(()) => {},
                    Err(e) => {
                        return Err(e);
                    },
                }
                self.emit_with(Opcode::OpArray, elements.len() as u64);
                Ok(())
            },
            Expression::Infix(_, _, _) => self.compile_infix(expression),
            Expression::Prefix(op, right) => {
                match self.compile_expression(right) {
                    Ok(()) => {},
                    Err(e) => {
                        return Err(e);
                    },
                }
                match op {
                    Token::Minus => {
                        self.emit_plain(Opcode::OpMinus);
                        Ok(())
                    },
                    Token::Bang => {
                        self.emit_plain(Opcode::OpBang);
                        Ok(())
                    },
                    _ => Err(unknown_operator(op)),
                }
            },
            Expression::If(_, _, _) => self.compile_if(expression),
            Expression::Identifier(name) => {
                match self.symbol_table.resolve(name.as_str()) {
                    Some(symbol) => {
                        self.load_symbol(&symbol);
                        Ok(())
                    },
                    None => {
                        let mut message = String::new();
                        push_str(&mut message, "undefined variable: ");
                        push_str(&mut message, name.as_str());
                        assert(message@ =~= undefined_variable_text(name@));
                        Err(CompileError { message })
                    },
                }
            },
            Expression::Index(left, index) => {
                match self.compile_expression(left) {
                    Ok(()) => {},
                    Err(e) => {
                        return Err(e);
                    },
                }
                match self.compile_expression(index) {
                    Ok(()) => {},
                    Err(e) => {
                        return Err(e);
                    },
                }
                self.emit_plain(Opcode::OpIndex);
                Ok(())
            },
            Expression::SliceIndex(_, _, _) => self.compile_slice(expression),
            Expression::Function(_, _, _) => self.compile_function(expression),
            Expression::Call(function, args) => {
                match self.compile_expression(function) {
                    Ok(()) => {},
                    Err(e) => {
                        return Err(e);
                    },
                }
                match self.compile_expressions(args) {
                    Ok(()) => {},
                    Err(e) => {
                        return Err(e);
                    },
                }
                self.emit_with(Opcode::OpCall, args.len() as u64);
                Ok(())
            },
        }
    }

    /// Compiles a binary expression.
    fn compile_infix(&mut self, expression: &Expression) -> (r: Result<(), CompileError>)
        requires
            old(self).wf(),
            expression is Infix,
        ensures
            final(self).wf(),
            r is Ok ==> final(self).scopes.len() == old(self).scopes.len(),
            compiled(r, final(self)@, compile_infix(old(self)@, expression@)),
        decreases expression, 0nat,
    {
        if let Expression::Infix(op, left, right) = expression {
            if let Token::Lt = op {
                match self.compile_expression(right) {
                    Ok(()) => {},
                    Err(e) => {
                        return Err(e);
                    },
                }
                match self.compile_expression(left) {
                    Ok(()) => {},
                    Err(e) => {
                        return Err(e);
                    },
                }
                self.emit_plain(Opcode::OpGreaterThan);
                return Ok(());
            }
            match self.compile_expression(left) {
                Ok(()) => {},
                Err(e) => {
                    return Err(e);
                },
            }
            match self.compile_expression(right) {
                Ok(()) => {},
                Err(e) => {
                    return Err(e);
                },
            }
            let opcode = match op {
                Token::Plus => Opcode::OpAdd,
                Token::Minus => Opcode::OpSub,
                Token::Asterisk => Opcode::OpMul,
                Token::Slash => Opcode::OpDiv,
                Token::Eq => Opcode::OpEqual,
                Token::NotEq => Opcode::OpNotEqual,
                Token::Gt => Opcode::OpGreaterThan,
                _ => {
                    return Err(unknown_operator(op));
                },
            };
            self.emit_plain(opcode);
        }
        Ok(())
    }

    /// Compiles the block of a branch and cuts a trailing `OpPop` off.
    fn compile_branch(&mut self, block: &Statement) -> (r: Result<(), CompileError>)
        requires
            old(self).wf(),
        ensures
            final(self).wf(),
            r is Ok ==> final(self).scopes.len() == old(self).scopes.len(),
            compiled(r, final(self)@, compile_branch(old(self)@, block@)),
        decreases block, 2nat,
    {
        match self.compile_statement(block) {
            Ok(()) => {},
            Err(e) => {
                return Err(e);
            },
        }
        if self.last_instruction_is(Opcode::OpPop) {
            self.remove_last_pop();
        }
        Ok(())
    }

    /// Compiles a conditional.
    fn compile_if(&mut self, expression: &Expression) -> (r: Result<(), CompileError>)
        requires
            old(self).wf(),
            expression is If,
        ensures
            final(self).wf(),
            r is Ok ==> final(self).scopes.len() == old(self).scopes.len(),
            compiled(r, final(self)@, compile_if(old(self)@, expression@)),
        decreases expression, 0nat,
    {
        if let Expression::If(condition, consequence, alternative) = expression {
            match self.compile_expression(condition) {
                Ok(()) => {},
                Err(e) => {
                    return Err(e);
                },
            }
            let jump_not_truthy_pos = self.emit_with(Opcode::OpJumpNotTruthy, 9999);
            match self.compile_branch(consequence) {
                Ok(()) => {},
                Err(e) => {
                    return Err(e);
                },
            }
            let jump_pos = self.emit_with(Opcode::OpJump, 9999);
            let after_consequence_pos = self.current_instructions().len();
            self.change_operand(jump_not_truthy_pos, after_consequence_pos as u64);
            match alternative {
                Some(block) => {
                    match self.compile_branch(block) {
                        Ok(()) => {},
                        Err(e) => {
                            return Err(e);
                        },
                    }
                },
                None => {
                    self.emit_plain(Opcode::OpNull);
                },
            }
            let after_alternative_pos = self.current_instructions().len();
            self.change_operand(jump_pos, after_alternative_pos as u64);
        }
        Ok(())
    }

    /// Ends a function's body with a return.
    fn end_body(&mut self)
        requires
            old(self).wf(),
        ensures
            final(self).wf(),
            final(self).scopes.len() == old(self).scopes.len(),
            final(self)@ == end_body(old(self)@),
    {
        if self.last_instruction_is(Opcode::OpPop) {
            let _ = self.replace_last_pop_with_return();
        }
        if !self.last_instruction_is(Opcode::OpReturnValue) {
            self.emit_plain(Opcode::OpReturn);
        }
    }

    /// Leaves the function's scope and emits, in the scope around, the
    /// closure instruction for the function compiled in it.
    fn close_function(&mut self, num_parameters: usize)
        requires
            old(self).wf(),
            old(self).scopes.len() >= 2,
        ensures
            final(self).wf(),
            final(self).scopes.len() == old(self).scopes.len() - 1,
            final(self)@ == close_function(old(self)@, num_parameters),
    {
        let num_locals = self.symbol_table.num_definitions;
        let free_symbols = copy_symbols(&self.symbol_table.free_symbols);
        let instructions = self.leave_scope();
        let ghost left = self@;
        let ghost free = symbols_view(free_symbols@);
        let mut i: usize = 0;
        while i < free_symbols.len()
            invariant
                i <= free_symbols.len(),
                self.wf(),
                self.scopes.len() == old(self).scopes.len() - 1,
                free == symbols_view(free_symbols@),
                left.load_symbols(free, 0) == self@.load_symbols(free, i as int),
            decreases free_symbols.len() - i,
        {
            self.load_symbol(&free_symbols[i]);
            i += 1;
        }
        let compiled_fn = Object::CompiledFunction(
            CompiledFunction { instructions, num_locals, num_parameters },
        );
        let constant = self.add_constant(compiled_fn);
        let mut operands: Vec<u64> = Vec::new();
        operands.push(constant as u64);
        operands.push(free_symbols.len() as u64);
        assert(operands@ =~= seq![constant as u64, free_symbols.len() as u64]);
        self.emit(Opcode::OpClosure, operands);
    }

    /// Compiles a function literal.
    fn compile_function(&mut self, expression: &Expression) -> (r: Result<(), CompileError>)
        requires
            old(self).wf(),
            expression is Function,
        ensures
            final(self).wf(),
            r is Ok ==> final(self).scopes.len() == old(self).scopes.len(),
            compiled(r, final(self)@, compile_function(old(self)@, expression@)),
        decreases expression, 0nat,
    {
        if let Expression::Function(params, body, own_name) = expression {
            self.enter_scope();
            match own_name {
                Some(name) => {
                    self.symbol_table.define_function_name(name.as_str());
                },
                None => {},
            }
            let ghost named = self@;
            let ghost names = texts(params@);
            proof {
                let inside = old(self)@.enter_scope();
                assert(named == match own_name {
                    Some(name) => inside.with_symbols(inside.symbols.define_function_name(name@)),
                    None => inside,
                });
                assert(expression@ matches ExpressionView::Function(p, b, n) && p == names && *b
                    == body@);
            }
            let mut i: usize = 0;
            #[verifier::loop_isolation(false)]
            while i < params.len()
                invariant
                    i <= params.len(),
                    self.wf(),
                    self.scopes.len() == old(self).scopes.len() + 1,
                    names == texts(params@),
                    named.define_all(names, 0) == self@.define_all(names, i as int),
                decreases params.len() - i,
            {
                assert(names[i as int] == params[i as int]@);
                match self.define(params[i].as_str()) {
                    Ok(_) => {},
                    Err(e) => {
                        assert(named.define_all(names, 0) is Err);
                        return Err(e);
                    },
                }
                i += 1;
            }
            match self.compile_statement(body) {
                Ok(()) => {},
                Err(e) => {
                    return Err(e);
                },
            }
            self.end_body();
            self.close_function(params.len());
        }
        Ok(())
    }

    /// Compiles a slice expression.
    fn compile_slice(&mut self, expression: &Expression) -> (r: Result<(), CompileError>)
        requires
            old(self).wf(),
            expression is SliceIndex,
        ensures
            final(self).wf(),
            r is Ok ==> final(self).scopes.len() == old(self).scopes.len(),
            compiled(r, final(self)@, compile_slice(old(self)@, expression@)),
        decreases expression, 0nat,
    {
        if let Expression::SliceIndex(left, start, stop) = expression {
            match self.compile_expression(left) {
                Ok(()) => {},
                Err(e) => {
                    return Err(e);
                },
            }
            match start {
                Some(start) => {
                    match self.compile_expression(start) {
                        Ok(()) => {},
                        Err(e) => {
                            return Err(e);
                        },
                    }
                },
                None => {
                    self.emit_plain(Opcode::OpNull);
                },
            }
            match stop {
                Some(stop) => {
                    match self.compile_expression(stop) {
                        Ok(()) => {},
                        Err(e) => {
                            return Err(e);
                        },
                    }
                },
                None => {
                    self.emit_plain(Opcode::OpNull);
                },
            }
            self.emit_plain(Opcode::OpSliceIndex);
        }
        Ok(())
    }
}

/// The error for an operator that the compiler does not know.
fn unknown_operator(op: &Token) -> (e: CompileError)
    ensures
        e@ == unknown_operator_text(op@),
{
    let mut message = String::new();
    push_str(&mut message, "unknown operator: ");
    op.write(&mut message);
    assert(message@ =~= unknown_operator_text(op@));
    CompileError { message }
}

} // verus!
