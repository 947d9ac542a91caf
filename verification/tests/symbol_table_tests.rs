use monkey::compiler::symbol_table::{
    Symbol, SymbolTable, BUILTIN_SCOPE, FREE_SCOPE, FUNCTION_SCOPE, GLOBAL_SCOPE, LOCAL_SCOPE,
};
use monkey::compiler::symbol_table::SymbolScope;
use std::collections::HashMap;

fn symbol(name: &str, scope: SymbolScope, index: usize) -> Symbol {
    Symbol {
        name: name.to_string(),
        scope,
        index,
    }
}

#[test]
fn test_define() {
    let expected = HashMap::from([
        ("a".to_string(), symbol("a", GLOBAL_SCOPE, 0)),
        ("b".to_string(), symbol("b", GLOBAL_SCOPE, 1)),
        ("c".to_string(), symbol("c", LOCAL_SCOPE, 0)),
        ("d".to_string(), symbol("d", LOCAL_SCOPE, 1)),
        ("e".to_string(), symbol("e", LOCAL_SCOPE, 0)),
        ("f".to_string(), symbol("f", LOCAL_SCOPE, 1)),
    ]);

    let mut global = SymbolTable::new(None);

    let a = global.define("a");
    assert_eq!(a, expected["a"]);

    let b = global.define("b");
    assert_eq!(b, expected["b"]);

    let mut local1 = SymbolTable::new(Some(global));

    let c = local1.define("c");
    assert_eq!(c, expected["c"]);

    let d = local1.define("d");
    assert_eq!(d, expected["d"]);

    let mut local2 = SymbolTable::new(Some(local1));

    let e = local2.define("e");
    assert_eq!(e, expected["e"]);

    let f = local2.define("f");
    assert_eq!(f, expected["f"]);
}

#[test]
fn test_resolve_global() {
    let mut global = SymbolTable::new(None);
    global.define("a");
    global.define("b");

    let expected = vec![symbol("a", GLOBAL_SCOPE, 0), symbol("b", GLOBAL_SCOPE, 1)];

    for sym in expected {
        let result = global.resolve(&sym.name);
        assert_eq!(result, Some(sym));
    }
}

#[test]
fn test_resolve_local() {
    let mut global = SymbolTable::new(None);
    global.define("a");
    global.define("b");

    let mut local = SymbolTable::new(Some(global));
    local.define("c");
    local.define("d");

    let expected = vec![
        symbol("a", GLOBAL_SCOPE, 0),
        symbol("b", GLOBAL_SCOPE, 1),
        symbol("c", LOCAL_SCOPE, 0),
        symbol("d", LOCAL_SCOPE, 1),
    ];

    for sym in expected {
        let result = local.resolve(&sym.name);
        assert_eq!(result, Some(sym));
    }
}

#[test]
fn test_resolve_nested_local() {
    let mut global = SymbolTable::new(None);
    global.define("a");
    global.define("b");

    let mut local = SymbolTable::new(Some(global.clone()));
    local.define("c");
    local.define("d");

    let mut local2 = SymbolTable::new(Some(local.clone()));
    local2.define("e");
    local2.define("f");

    let expected1 = vec![
        symbol("a", GLOBAL_SCOPE, 0),
        symbol("b", GLOBAL_SCOPE, 1),
        symbol("c", LOCAL_SCOPE, 0),
        symbol("d", LOCAL_SCOPE, 1),
    ];

    let expected2 = vec![
        symbol("a", GLOBAL_SCOPE, 0),
        symbol("b", GLOBAL_SCOPE, 1),
        symbol("e", LOCAL_SCOPE, 0),
        symbol("f", LOCAL_SCOPE, 1),
    ];

    for sym in expected1 {
        let result = local.resolve(&sym.name);
        assert_eq!(result, Some(sym));
    }

    for sym in expected2 {
        let result = local2.resolve(&sym.name);
        assert_eq!(result, Some(sym));
    }
}

#[test]
fn test_define_resolve_builtins() {
    let expected = vec![
        symbol("a", BUILTIN_SCOPE, 0),
        symbol("c", BUILTIN_SCOPE, 1),
        symbol("e", BUILTIN_SCOPE, 2),
        symbol("f", BUILTIN_SCOPE, 3),
    ];

    let mut global = SymbolTable::new(None);
    for (i, sym) in expected.iter().enumerate() {
        global.define_builtin(i, &sym.name);
    }
    let local1 = SymbolTable::new(Some(global.clone()));
    let local2 = SymbolTable::new(Some(local1.clone()));

    for mut table in vec![global, local1, local2] {
        for sym in expected.iter() {
            let result = table.resolve(&sym.name);
            assert_eq!(result, Some(sym.clone()));
        }
    }
}

#[test]
fn test_resolve_free() {
    let mut global = SymbolTable::new(None);
    global.define("a");
    global.define("b");

    let mut local1 = SymbolTable::new(Some(global.clone()));
    local1.define("c");
    local1.define("d");

    let mut local2 = SymbolTable::new(Some(local1.clone()));
    local2.define("e");
    local2.define("f");

    struct Test {
        table: SymbolTable,
        expected_symbols: Vec<Symbol>,
        expected_free_symbols: Vec<Symbol>,
    }

    let tests = vec![
        Test {
            table: local1.clone(),
            expected_symbols: vec![
                symbol("a", GLOBAL_SCOPE, 0),
                symbol("b", GLOBAL_SCOPE, 1),
                symbol("c", LOCAL_SCOPE, 0),
                symbol("d", LOCAL_SCOPE, 1),
            ],
            expected_free_symbols: vec![],
        },
        Test {
            table: local2.clone(),
            expected_symbols: vec![
                symbol("a", GLOBAL_SCOPE, 0),
                symbol("b", GLOBAL_SCOPE, 1),
                symbol("c", FREE_SCOPE, 0),
                symbol("d", FREE_SCOPE, 1),
                symbol("e", LOCAL_SCOPE, 0),
                symbol("f", LOCAL_SCOPE, 1),
            ],
            expected_free_symbols: vec![symbol("c", LOCAL_SCOPE, 0), symbol("d", LOCAL_SCOPE, 1)],
        },
    ];

    for test in tests {
        let mut table = test.table;
        let expected_symbols = test.expected_symbols;
        let expected_free_symbols = test.expected_free_symbols;

        for sym in expected_symbols {
            let result = table.resolve(&sym.name);
            assert_eq!(result, Some(sym));
        }

        let free_symbols = &table.free_symbols;
        assert_eq!(free_symbols.len(), expected_free_symbols.len());
        for (i, sym) in free_symbols.iter().enumerate() {
            assert_eq!(sym, &expected_free_symbols[i]);
        }
    }
}

#[test]
fn test_resolve_unresolvable_free() {
    let mut global = SymbolTable::new(None);
    global.define("a");

    let mut local1 = SymbolTable::new(Some(global.clone()));
    local1.define("c");

    let mut local2 = SymbolTable::new(Some(local1.clone()));
    local2.define("e");
    local2.define("f");

    let expected = vec![
        symbol("a", GLOBAL_SCOPE, 0),
        symbol("c", FREE_SCOPE, 0),
        symbol("e", LOCAL_SCOPE, 0),
        symbol("f", LOCAL_SCOPE, 1),
    ];

    for sym in expected {
        let result = local2.resolve(&sym.name);
        assert_eq!(result, Some(sym));
    }

    let expect_unresolvable = vec![String::from("b"), String::from("d")];

    for name in expect_unresolvable {
        let result = local2.resolve(&name);
        assert_eq!(result, None);
    }
}

#[test]
fn test_define_and_resolve_function_name() {
    let mut global = SymbolTable::new(None);
    global.define_function_name("a");

    let expected = vec![symbol("a", FUNCTION_SCOPE, 0)];

    for sym in expected {
        let result = global.resolve(&sym.name);
        assert_eq!(result, Some(sym));
    }
}

#[test]
fn test_shadowing_function_name() {
    let mut global = SymbolTable::new(None);
    global.define_function_name("a");
    global.define("a");

    let expected = vec![symbol("a", GLOBAL_SCOPE, 0)];

    for sym in expected {
        let result = global.resolve(&sym.name);
        assert_eq!(result, Some(sym));
    }
}

#[test]
fn test_free_symbols_in_order_of_first_resolution() {
    let mut global = SymbolTable::new(None);
    global.define("a");
    global.define("b");
    let mut middle = SymbolTable::new(Some(global));
    middle.define("c");
    middle.define("d");
    let mut inner = SymbolTable::new(Some(middle));
    inner.define("e");
    inner.define("f");

    assert_eq!(inner.resolve("d"), Some(symbol("d", FREE_SCOPE, 0)));
    assert_eq!(inner.resolve("c"), Some(symbol("c", FREE_SCOPE, 1)));
    assert_eq!(inner.resolve("d"), Some(symbol("d", FREE_SCOPE, 0)));
    assert_eq!(
        inner.free_symbols,
        vec![symbol("d", LOCAL_SCOPE, 1), symbol("c", LOCAL_SCOPE, 0)]
    );
}

#[test]
fn test_free_symbol_passes_through_every_scope_between() {
    let mut global = SymbolTable::new(None);
    global.define("a");
    let mut outer = SymbolTable::new(Some(global));
    outer.define("x");
    let middle = SymbolTable::new(Some(outer));
    let mut inner = SymbolTable::new(Some(middle));

    assert_eq!(inner.resolve("x"), Some(symbol("x", FREE_SCOPE, 0)));
    assert_eq!(inner.free_symbols, vec![symbol("x", FREE_SCOPE, 0)]);
    let middle = inner.outer.as_ref().unwrap();
    assert_eq!(middle.free_symbols, vec![symbol("x", LOCAL_SCOPE, 0)]);
    assert_eq!(inner.resolve("a"), Some(symbol("a", GLOBAL_SCOPE, 0)));
    assert_eq!(inner.free_symbols.len(), 1);
}
