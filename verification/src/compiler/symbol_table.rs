//! The symbol table: which name means what, scope by scope.
//!
//! A table belongs to one compilation scope and owns the table of the scope
//! around it. Resolving a name that an enclosing function defines turns it
//! into a free symbol of every scope on the way.

use vstd::prelude::*;

verus! {

#[derive(Debug, PartialEq, Eq, Clone, Copy, Structural)]
pub enum SymbolScope {
    Global,
    Local,
    Builtin,
    Free,
    Function,
}

pub const GLOBAL_SCOPE: SymbolScope = SymbolScope::Global;

pub const LOCAL_SCOPE: SymbolScope = SymbolScope::Local;

pub const BUILTIN_SCOPE: SymbolScope = SymbolScope::Builtin;

pub const FREE_SCOPE: SymbolScope = SymbolScope::Free;

pub const FUNCTION_SCOPE: SymbolScope = SymbolScope::Function;

#[derive(Debug, PartialEq)]
pub struct Symbol {
    pub name: String,
    pub scope: SymbolScope,
    pub index: usize,
}

#[derive(Debug, PartialEq)]
pub struct SymbolTable {
    pub outer: Option<Box<SymbolTable>>,
    /// The symbols of this scope in the order in which they were stored;
    /// of two with one name the later counts.
    pub store: Vec<Symbol>,
    pub num_definitions: usize,
    pub free_symbols: Vec<Symbol>,
}

/// A symbol as a mathematical value.
pub struct SymbolView {
    pub name: Seq<char>,
    pub scope: SymbolScope,
    pub index: usize,
}

/// A symbol table as a mathematical value: the store is a map from names
/// to symbols.
#[verifier::ext_equal]
pub struct TableView {
    pub outer: Option<Box<TableView>>,
    pub store: Map<Seq<char>, SymbolView>,
    pub num_definitions: usize,
    pub free_symbols: Seq<SymbolView>,
}

impl View for Symbol {
    type V = SymbolView;

    open spec fn view(&self) -> SymbolView {
        SymbolView { name: self.name@, scope: self.scope, index: self.index }
    }
}

/// The views of a list of symbols.
pub open spec fn symbols_view(symbols: Seq<Symbol>) -> Seq<SymbolView> {
    Seq::new(symbols.len(), |i: int| symbols[i]@)
}

/// The map that a list of stored symbols stands for: each name maps to the
/// last symbol stored under it.
pub open spec fn store_map(symbols: Seq<SymbolView>) -> Map<Seq<char>, SymbolView>
    decreases symbols.len(),
{
    if symbols.len() == 0 {
        Map::empty()
    } else {
        store_map(symbols.drop_last()).insert(symbols.last().name, symbols.last())
    }
}

/// The view of a table.
pub open spec fn table_view(table: SymbolTable) -> TableView
    decreases table,
{
    TableView {
        outer: match table.outer {
            Some(outer) => Some(Box::new(table_view(*outer))),
            None => None,
        },
        store: store_map(symbols_view(table.store@)),
        num_definitions: table.num_definitions,
        free_symbols: symbols_view(table.free_symbols@),
    }
}

impl View for SymbolTable {
    type V = TableView;

    open spec fn view(&self) -> TableView {
        table_view(*self)
    }
}

impl TableView {
    /// A table without symbols inside `outer`.
    pub open spec fn empty(outer: Option<TableView>) -> TableView {
        TableView {
            outer: match outer {
                Some(outer) => Some(Box::new(outer)),
                None => None,
            },
            store: Map::empty(),
            num_definitions: 0,
            free_symbols: Seq::empty(),
        }
    }

    /// The table with `symbol` stored under its name.
    pub open spec fn with(self, symbol: SymbolView) -> TableView {
        TableView { store: self.store.insert(symbol.name, symbol), ..self }
    }

    /// The symbol that `define(name)` makes: global in the outermost
    /// table, local in every other, numbered by the definitions so far.
    pub open spec fn defined(self, name: Seq<char>) -> SymbolView {
        SymbolView {
            name,
            scope: if self.outer is Some {
                SymbolScope::Local
            } else {
                SymbolScope::Global
            },
            index: self.num_definitions,
        }
    }

    /// The table after `define(name)`.
    pub open spec fn define(self, name: Seq<char>) -> TableView {
        TableView {
            num_definitions: (self.num_definitions + 1) as usize,
            ..self.with(self.defined(name))
        }
    }

    /// The table after `define_builtin(index, name)`.
    pub open spec fn define_builtin(self, index: usize, name: Seq<char>) -> TableView {
        self.with(SymbolView { name, scope: SymbolScope::Builtin, index })
    }

    /// The table after `define_function_name(name)`.
    pub open spec fn define_function_name(self, name: Seq<char>) -> TableView {
        self.with(SymbolView { name, scope: SymbolScope::Function, index: 0 })
    }

    /// The free symbol that stands for `source` in this table.
    pub open spec fn freed(self, source: SymbolView) -> SymbolView {
        SymbolView {
            name: source.name,
            scope: SymbolScope::Free,
            index: self.free_symbols.len() as usize,
        }
    }

    /// The table after `define_free(source)`: that symbol is recorded,
    /// and its name now means the free symbol.
    pub open spec fn define_free(self, source: SymbolView) -> TableView {
        TableView {
            free_symbols: self.free_symbols.push(source),
            ..self.with(self.freed(source))
        }
    }

    /// What `resolve(name)` finds, and the table afterwards. A name of
    /// this scope is found as it is. A name of an enclosing scope is found
    /// as it is where it is global or built in; any other becomes a free
    /// symbol of this scope, and so on every scope between.
    pub open spec fn resolve(self, name: Seq<char>) -> (Option<SymbolView>, TableView)
        decreases self,
    {
        if self.store.contains_key(name) {
            (Some(self.store[name]), self)
        } else {
            match self.outer {
                None => (None, self),
                Some(outer) => {
                    let (found, outer_after) = outer.resolve(name);
                    let table = TableView { outer: Some(Box::new(outer_after)), ..self };
                    match found {
                        None => (None, table),
                        Some(symbol) => if symbol.scope == SymbolScope::Global || symbol.scope
                            == SymbolScope::Builtin {
                            (Some(symbol), table)
                        } else {
                            (Some(table.freed(symbol)), table.define_free(symbol))
                        },
                    }
                },
            }
        }
    }

    /// The number of scopes around this one.
    pub open spec fn depth(self) -> nat
        decreases self,
    {
        match self.outer {
            None => 0,
            Some(outer) => outer.depth() + 1,
        }
    }

    /// The outermost table of the chain.
    pub open spec fn outermost(self) -> TableView
        decreases self,
    {
        match self.outer {
            None => self,
            Some(outer) => outer.outermost(),
        }
    }
}

impl Clone for Symbol {
    fn clone(&self) -> (r: Symbol)
        ensures
            r@ == self@,
    {
        Symbol { name: self.name.clone(), scope: self.scope, index: self.index }
    }
}

/// A copy of a list of symbols.
pub fn copy_symbols(symbols: &Vec<Symbol>) -> (r: Vec<Symbol>)
    ensures
        symbols_view(r@) == symbols_view(symbols@),
{
    let mut out: Vec<Symbol> = Vec::new();
    let mut i: usize = 0;
    while i < symbols.len()
        invariant
            i <= symbols.len(),
            out.len() == i,
            forall|j: int| 0 <= j < i ==> out[j]@ == symbols[j]@,
        decreases symbols.len() - i,
    {
        out.push(symbols[i].clone());
        i += 1;
    }
    assert(symbols_view(out@) =~= symbols_view(symbols@));
    out
}

fn copy_table(table: &SymbolTable) -> (r: SymbolTable)
    ensures
        r@ == table@,
    decreases table,
{
    let outer = match &table.outer {
        Some(outer) => Some(Box::new(copy_table(outer))),
        None => None,
    };
    SymbolTable {
        outer,
        store: copy_symbols(&table.store),
        num_definitions: table.num_definitions,
        free_symbols: copy_symbols(&table.free_symbols),
    }
}

impl Clone for SymbolTable {
    fn clone(&self) -> (r: SymbolTable)
        ensures
            r@ == self@,
    {
        copy_table(self)
    }
}

/// The map of a store with one more symbol.
proof fn lemma_store_push(symbols: Seq<SymbolView>, symbol: SymbolView)
    ensures
        store_map(symbols.push(symbol)) == store_map(symbols).insert(symbol.name, symbol),
{
    assert(symbols.push(symbol).drop_last() =~= symbols);
}

impl SymbolTable {
    /// A table without symbols for a scope inside `outer`, or for the
    /// outermost scope.
    pub fn new(outer: Option<SymbolTable>) -> (table: SymbolTable)
        ensures
            table@ == TableView::empty(
                match outer {
                    Some(outer) => Some(outer@),
                    None => None,
                },
            ),
    {
        let outer = match outer {
            Some(outer) => Some(Box::new(outer)),
            None => None,
        };
        let table = SymbolTable {
            outer,
            store: Vec::new(),
            num_definitions: 0,
            free_symbols: Vec::new(),
        };
        assert(symbols_view(table.store@) =~= Seq::empty());
        assert(table@.free_symbols =~= Seq::empty());
        table
    }

    /// Stores a symbol under its name.
    fn insert(&mut self, symbol: Symbol)
        ensures
            final(self)@ == old(self)@.with(symbol@),
    {
        proof {
            lemma_store_push(symbols_view(self.store@), symbol@);
            assert(symbols_view(self.store@.push(symbol)) =~= symbols_view(self.store@).push(
                symbol@,
            ));
        }
        self.store.push(symbol);
    }

    /// The symbol stored under `name` in this scope.
    fn get(&self, name: &str) -> (r: Option<Symbol>)
        ensures
            match r {
                Some(symbol) => self@.store.contains_key(name@) && symbol@ == self@.store[name@],
                None => !self@.store.contains_key(name@),
            },
    {
        let key = String::from_str(name);
        let ghost views = symbols_view(self.store@);
        let mut i: usize = self.store.len();
        assert(views.subrange(0, i as int) =~= views);
        while i > 0
            invariant
                i <= self.store.len(),
                key@ == name@,
                views == symbols_view(self.store@),
                store_map(views).contains_key(name@) == store_map(
                    views.subrange(0, i as int),
                ).contains_key(name@),
                store_map(views).contains_key(name@) ==> store_map(views)[name@] == store_map(
                    views.subrange(0, i as int),
                )[name@],
            decreases i,
        {
            let ghost prefix = views.subrange(0, i as int);
            assert(prefix.drop_last() =~= views.subrange(0, i - 1));
            assert(prefix.last() == views[i - 1]);
            if self.store[i - 1].name == key {
                return Some(self.store[i - 1].clone());
            }
            i -= 1;
        }
        None
    }

    /// Defines `name` in this scope: as a global in the outermost table,
    /// as a local in every other. Its index is the number of definitions
    /// before, which a machine word must be able to count one further.
    pub fn define(&mut self, name: &str) -> (symbol: Symbol)
        requires
            old(self).num_definitions < usize::MAX,
        ensures
            symbol@ == old(self)@.defined(name@),
            final(self)@ == old(self)@.define(name@),
    {
        let scope = match self.outer {
            Some(_) => SymbolScope::Local,
            None => SymbolScope::Global,
        };
        let symbol = Symbol { name: String::from_str(name), scope, index: self.num_definitions };
        self.insert(symbol.clone());
        self.num_definitions += 1;
        symbol
    }

    /// Defines `name` as the built-in function number `index`.
    pub fn define_builtin(&mut self, index: usize, name: &str) -> (symbol: Symbol)
        ensures
            symbol@ == (SymbolView { name: name@, scope: SymbolScope::Builtin, index }),
            final(self)@ == old(self)@.define_builtin(index, name@),
    {
        let symbol = Symbol { name: String::from_str(name), scope: SymbolScope::Builtin, index };
        self.insert(symbol.clone());
        symbol
    }

    /// Records `source` as captured by this scope and defines its name
    /// as the free symbol that stands for it.
    pub fn define_free(&mut self, source: &Symbol) -> (symbol: Symbol)
        ensures
            symbol@ == old(self)@.freed(source@),
            final(self)@ == old(self)@.define_free(source@),
    {
        let symbol = Symbol {
            name: source.name.clone(),
            scope: SymbolScope::Free,
            index: self.free_symbols.len(),
        };
        self.free_symbols.push(source.clone());
        assert(symbols_view(self.free_symbols@) =~= symbols_view(old(self).free_symbols@).push(
            source@,
        ));
        self.insert(symbol.clone());
        symbol
    }

    /// Defines `name` as the function that is being compiled.
    pub fn define_function_name(&mut self, name: &str) -> (symbol: Symbol)
        ensures
            symbol@ == (SymbolView { name: name@, scope: SymbolScope::Function, index: 0 }),
            final(self)@ == old(self)@.define_function_name(name@),
    {
        let symbol = Symbol { name: String::from_str(name), scope: SymbolScope::Function, index: 0 };
        self.insert(symbol.clone());
        symbol
    }

    /// Finds what `name` means here, looking outward scope by scope.
    pub fn resolve(&mut self, name: &str) -> (r: Option<Symbol>)
        ensures
            match r {
                Some(symbol) => old(self)@.resolve(name@).0 == Some(symbol@),
                None => old(self)@.resolve(name@).0 is None,
            },
            final(self)@ == old(self)@.resolve(name@).1,
        decreases old(self)@.depth(),
    {
        match self.get(name) {
            Some(symbol) => {
                return Some(symbol);
            },
            None => {},
        }
        let mut outer = match self.outer.take() {
            Some(outer) => *outer,
            None => {
                return None;
            },
        };
        let found = outer.resolve(name);
        self.outer = Some(Box::new(outer));
        match found {
            None => None,
            Some(symbol) => {
                if symbol.scope == SymbolScope::Global || symbol.scope == SymbolScope::Builtin {
                    Some(symbol)
                } else {
                    Some(self.define_free(&symbol))
                }
            },
        }
    }
}

} // verus!
