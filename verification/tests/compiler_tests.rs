use monkey::code::{instructions_string, make, Instructions, Opcode};
use monkey::compiler::Compiler;
use monkey::lexer::Lexer;
use monkey::object::{CompiledFunction, Object};
use monkey::parser::ast::Program;
use monkey::parser::Parser;

fn compiled_function(instructions: Vec<Instructions>) -> Object {
    Object::CompiledFunction(CompiledFunction {
        instructions: concat_instructions(instructions),
        num_locals: 0,
        num_parameters: 0,
    })
}

struct CompilerTestCase {
    input: String,
    expected_constants: Vec<Object>,
    expected_instructions: Vec<Instructions>,
}

#[test]
fn test_integer_arithmetic() {
    let tests = vec![
        CompilerTestCase {
            input: String::from("1"),
            expected_constants: vec![Object::Integer(1)],
            expected_instructions: vec![make(Opcode::OpConstant, vec![0]),
            make(Opcode::OpPop, vec![])],
        },
        CompilerTestCase {
            input: String::from("2"),
            expected_constants: vec![Object::Integer(2)],
            expected_instructions: vec![make(Opcode::OpConstant, vec![0]),
            make(Opcode::OpPop, vec![])],
        },
        CompilerTestCase {
            input: String::from("1 + 2"),
            expected_constants: vec![Object::Integer(1),
            Object::Integer(2)],
            expected_instructions: vec![make(Opcode::OpConstant, vec![0]),
            make(Opcode::OpConstant, vec![1]),
            make(Opcode::OpAdd, vec![]),
            make(Opcode::OpPop, vec![])],
        },
        CompilerTestCase {
            input: String::from("1; 2"),
            expected_constants: vec![Object::Integer(1),
            Object::Integer(2)],
            expected_instructions: vec![make(Opcode::OpConstant, vec![0]),
            make(Opcode::OpPop, vec![]),
            make(Opcode::OpConstant, vec![1]),
            make(Opcode::OpPop, vec![])],
        },
        CompilerTestCase {
            input: String::from("1 - 2"),
            expected_constants: vec![Object::Integer(1),
            Object::Integer(2)],
            expected_instructions: vec![make(Opcode::OpConstant, vec![0]),
            make(Opcode::OpConstant, vec![1]),
            make(Opcode::OpSub, vec![]),
            make(Opcode::OpPop, vec![])],
        },
        CompilerTestCase {
            input: String::from("1 * 2"),
            expected_constants: vec![Object::Integer(1),
            Object::Integer(2)],
            expected_instructions: vec![make(Opcode::OpConstant, vec![0]),
            make(Opcode::OpConstant, vec![1]),
            make(Opcode::OpMul, vec![]),
            make(Opcode::OpPop, vec![])],
        },
        CompilerTestCase {
            input: String::from("4 / 2"),
            expected_constants: vec![Object::Integer(4),
            Object::Integer(2)],
            expected_instructions: vec![make(Opcode::OpConstant, vec![0]),
            make(Opcode::OpConstant, vec![1]),
            make(Opcode::OpDiv, vec![]),
            make(Opcode::OpPop, vec![])],
        },
        CompilerTestCase {
            input: String::from("-1"),
            expected_constants: vec![Object::Integer(1)],
            expected_instructions: vec![make(Opcode::OpConstant, vec![0]),
            make(Opcode::OpMinus, vec![]),
            make(Opcode::OpPop, vec![])],
        },
    ];

    run_compiler_tests(tests);
}

#[test]
fn test_boolean_expressions() {
    let tests = vec![
        CompilerTestCase {
            input: String::from("true"),
            expected_constants: vec![],
            expected_instructions: vec![make(Opcode::OpTrue, vec![]),
            make(Opcode::OpPop, vec![])],
        },
        CompilerTestCase {
            input: String::from("false"),
            expected_constants: vec![],
            expected_instructions: vec![make(Opcode::OpFalse, vec![]),
            make(Opcode::OpPop, vec![])],
        },
        CompilerTestCase {
            input: String::from("1 > 2"),
            expected_constants: vec![Object::Integer(1),
            Object::Integer(2)],
            expected_instructions: vec![make(Opcode::OpConstant, vec![0]),
            make(Opcode::OpConstant, vec![1]),
            make(Opcode::OpGreaterThan, vec![]),
            make(Opcode::OpPop, vec![])],
        },
        CompilerTestCase {
            input: String::from("1 < 2"),
            expected_constants: vec![Object::Integer(2),
            Object::Integer(1)],
            expected_instructions: vec![make(Opcode::OpConstant, vec![0]),
            make(Opcode::OpConstant, vec![1]),
            make(Opcode::OpGreaterThan, vec![]),
            make(Opcode::OpPop, vec![])],
        },
        CompilerTestCase {
            input: String::from("1 == 2"),
            expected_constants: vec![Object::Integer(1),
            Object::Integer(2)],
            expected_instructions: vec![make(Opcode::OpConstant, vec![0]),
            make(Opcode::OpConstant, vec![1]),
            make(Opcode::OpEqual, vec![]),
            make(Opcode::OpPop, vec![])],
        },
        CompilerTestCase {
            input: String::from("1 != 2"),
            expected_constants: vec![Object::Integer(1),
            Object::Integer(2)],
            expected_instructions: vec![make(Opcode::OpConstant, vec![0]),
            make(Opcode::OpConstant, vec![1]),
            make(Opcode::OpNotEqual, vec![]),
            make(Opcode::OpPop, vec![])],
        },
        CompilerTestCase {
            input: String::from("true == false"),
            expected_constants: vec![],
            expected_instructions: vec![make(Opcode::OpTrue, vec![]),
            make(Opcode::OpFalse, vec![]),
            make(Opcode::OpEqual, vec![]),
            make(Opcode::OpPop, vec![])],
        },
        CompilerTestCase {
            input: String::from("true != false"),
            expected_constants: vec![],
            expected_instructions: vec![make(Opcode::OpTrue, vec![]),
            make(Opcode::OpFalse, vec![]),
            make(Opcode::OpNotEqual, vec![]),
            make(Opcode::OpPop, vec![])],
        },
        CompilerTestCase {
            input: String::from("!true"),
            expected_constants: vec![],
            expected_instructions: vec![make(Opcode::OpTrue, vec![]),
            make(Opcode::OpBang, vec![]),
            make(Opcode::OpPop, vec![])],
        },
    ];

    run_compiler_tests(tests);
}

#[test]
fn test_conditionals() {
    let tests = vec![
        CompilerTestCase {
            input: String::from("if (true) { 10 }; 3333;"),
            expected_constants: vec![Object::Integer(10),
            Object::Integer(3333)],
            expected_instructions: vec![make(Opcode::OpTrue, vec![]),
            make(Opcode::OpJumpNotTruthy, vec![10]),
            make(Opcode::OpConstant, vec![0]),
            make(Opcode::OpJump, vec![11]),
            make(Opcode::OpNull, vec![]),
            make(Opcode::OpPop, vec![]),
            make(Opcode::OpConstant, vec![1]),
            make(Opcode::OpPop, vec![])],
        },
        CompilerTestCase {
            input: String::from("if (true) { 10 } else { 20 }; 3333;"),
            expected_constants: vec![Object::Integer(10),
            Object::Integer(20),
            Object::Integer(3333)],
            expected_instructions: vec![make(Opcode::OpTrue, vec![]),
            make(Opcode::OpJumpNotTruthy, vec![10]),
            make(Opcode::OpConstant, vec![0]),
            make(Opcode::OpJump, vec![13]),
            make(Opcode::OpConstant, vec![1]),
            make(Opcode::OpPop, vec![]),
            make(Opcode::OpConstant, vec![2]),
            make(Opcode::OpPop, vec![])],
        },
    ];

    run_compiler_tests(tests);
}

#[test]
fn test_global_let_statements() {
    let tests = vec![
        CompilerTestCase {
            input: String::from("let one = 1; let two = 2;"),
            expected_constants: vec![Object::Integer(1),
            Object::Integer(2)],
            expected_instructions: vec![make(Opcode::OpConstant, vec![0]),
            make(Opcode::OpSetGlobal, vec![0]),
            make(Opcode::OpConstant, vec![1]),
            make(Opcode::OpSetGlobal, vec![1])],
        },
        CompilerTestCase {
            input: String::from("let one = 1; one;"),
            expected_constants: vec![Object::Integer(1)],
            expected_instructions: vec![make(Opcode::OpConstant, vec![0]),
            make(Opcode::OpSetGlobal, vec![0]),
            make(Opcode::OpGetGlobal, vec![0]),
            make(Opcode::OpPop, vec![])],
        },
        CompilerTestCase {
            input: String::from("let one = 1; let two = one; two;"),
            expected_constants: vec![Object::Integer(1)],
            expected_instructions: vec![make(Opcode::OpConstant, vec![0]),
            make(Opcode::OpSetGlobal, vec![0]),
            make(Opcode::OpGetGlobal, vec![0]),
            make(Opcode::OpSetGlobal, vec![1]),
            make(Opcode::OpGetGlobal, vec![1]),
            make(Opcode::OpPop, vec![])],
        },
    ];

    run_compiler_tests(tests);
}

#[test]
fn test_string_expressions() {
    let tests = vec![
        CompilerTestCase {
            input: String::from("\"monkey\""),
            expected_constants: vec![Object::String(String::from("monkey"))],
            expected_instructions: vec![make(Opcode::OpConstant, vec![0]),
            make(Opcode::OpPop, vec![])],
        },
        CompilerTestCase {
            input: String::from("\"mon\" + \"key\""),
            expected_constants: vec![Object::String(String::from("mon")),
            Object::String(String::from("key"))],
            expected_instructions: vec![make(Opcode::OpConstant, vec![0]),
            make(Opcode::OpConstant, vec![1]),
            make(Opcode::OpAdd, vec![]),
            make(Opcode::OpPop, vec![])],
        },
    ];

    run_compiler_tests(tests);
}

#[test]
fn test_array_literals() {
    let tests = vec![
        CompilerTestCase {
            input: String::from("[]"),
            expected_constants: vec![],
            expected_instructions: vec![make(Opcode::OpArray, vec![0]),
            make(Opcode::OpPop, vec![])],
        },
        CompilerTestCase {
            input: String::from("[1, 2, 3]"),
            expected_constants: vec![Object::Integer(1),
            Object::Integer(2),
            Object::Integer(3)],
            expected_instructions: vec![make(Opcode::OpConstant, vec![0]),
            make(Opcode::OpConstant, vec![1]),
            make(Opcode::OpConstant, vec![2]),
            make(Opcode::OpArray, vec![3]),
            make(Opcode::OpPop, vec![])],
        },
        CompilerTestCase {
            input: String::from("[1 + 2, 3 - 4, 5 * 6]"),
            expected_constants: vec![Object::Integer(1),
            Object::Integer(2),
            Object::Integer(3),
            Object::Integer(4),
            Object::Integer(5),
            Object::Integer(6)],
            expected_instructions: vec![make(Opcode::OpConstant, vec![0]),
            make(Opcode::OpConstant, vec![1]),
            make(Opcode::OpAdd, vec![]),
            make(Opcode::OpConstant, vec![2]),
            make(Opcode::OpConstant, vec![3]),
            make(Opcode::OpSub, vec![]),
            make(Opcode::OpConstant, vec![4]),
            make(Opcode::OpConstant, vec![5]),
            make(Opcode::OpMul, vec![]),
            make(Opcode::OpArray, vec![3]),
            make(Opcode::OpPop, vec![])],
        },
    ];

    run_compiler_tests(tests);
}

#[test]
fn test_hash_literals() {
    let tests = vec![
        CompilerTestCase {
            input: String::from("{}"),
            expected_constants: vec![],
            expected_instructions: vec![make(Opcode::OpHash, vec![0]),
            make(Opcode::OpPop, vec![])],
        },
        CompilerTestCase {
            input: String::from("{1: 2, 3: 4, 5: 6}"),
            expected_constants: vec![Object::Integer(1),
            Object::Integer(2),
            Object::Integer(3),
            Object::Integer(4),
            Object::Integer(5),
            Object::Integer(6)],
            expected_instructions: vec![make(Opcode::OpConstant, vec![0]),
            make(Opcode::OpConstant, vec![1]),
            make(Opcode::OpConstant, vec![2]),
            make(Opcode::OpConstant, vec![3]),
            make(Opcode::OpConstant, vec![4]),
            make(Opcode::OpConstant, vec![5]),
            make(Opcode::OpHash, vec![6]),
            make(Opcode::OpPop, vec![])],
        },
        CompilerTestCase {
            input: String::from("{1: 2 + 3, 4: 5 * 6}"),
            expected_constants: vec![Object::Integer(1),
            Object::Integer(2),
            Object::Integer(3),
            Object::Integer(4),
            Object::Integer(5),
            Object::Integer(6)],
            expected_instructions: vec![make(Opcode::OpConstant, vec![0]),
            make(Opcode::OpConstant, vec![1]),
            make(Opcode::OpConstant, vec![2]),
            make(Opcode::OpAdd, vec![]),
            make(Opcode::OpConstant, vec![3]),
            make(Opcode::OpConstant, vec![4]),
            make(Opcode::OpConstant, vec![5]),
            make(Opcode::OpMul, vec![]),
            make(Opcode::OpHash, vec![4]),
            make(Opcode::OpPop, vec![])],
        },
    ];

    run_compiler_tests(tests);
}

#[test]
fn test_index_expressions() {
    let tests = vec![
        CompilerTestCase {
            input: String::from("[1, 2, 3][1 + 1]"),
            expected_constants: vec![Object::Integer(1),
            Object::Integer(2),
            Object::Integer(3),
            Object::Integer(1),
            Object::Integer(1)],
            expected_instructions: vec![make(Opcode::OpConstant, vec![0]),
            make(Opcode::OpConstant, vec![1]),
            make(Opcode::OpConstant, vec![2]),
            make(Opcode::OpArray, vec![3]),
            make(Opcode::OpConstant, vec![3]),
            make(Opcode::OpConstant, vec![4]),
            make(Opcode::OpAdd, vec![]),
            make(Opcode::OpIndex, vec![]),
            make(Opcode::OpPop, vec![])],
        },
        CompilerTestCase {
            input: String::from("{1: 2}[2 - 1]"),
            expected_constants: vec![Object::Integer(1),
            Object::Integer(2),
            Object::Integer(2),
            Object::Integer(1)],
            expected_instructions: vec![make(Opcode::OpConstant, vec![0]),
            make(Opcode::OpConstant, vec![1]),
            make(Opcode::OpHash, vec![2]),
            make(Opcode::OpConstant, vec![2]),
            make(Opcode::OpConstant, vec![3]),
            make(Opcode::OpSub, vec![]),
            make(Opcode::OpIndex, vec![]),
            make(Opcode::OpPop, vec![])],
        },
        // String indexing, not supported in the book
        CompilerTestCase {
            input: String::from("\"monkey\"[1]"),
            expected_constants: vec![Object::String(String::from("monkey")),
            Object::Integer(1)],
            expected_instructions: vec![make(Opcode::OpConstant, vec![0]),
            make(Opcode::OpConstant, vec![1]),
            make(Opcode::OpIndex, vec![]),
            make(Opcode::OpPop, vec![])],
        },
        // Slice indexing, not supported in the book
        CompilerTestCase {
            input: String::from("[1, 2, 3][1:2]"),
            expected_constants: vec![Object::Integer(1),
            Object::Integer(2),
            Object::Integer(3),
            Object::Integer(1),
            Object::Integer(2)],
            expected_instructions: vec![make(Opcode::OpConstant, vec![0]),
            make(Opcode::OpConstant, vec![1]),
            make(Opcode::OpConstant, vec![2]),
            make(Opcode::OpArray, vec![3]),
            make(Opcode::OpConstant, vec![3]),
            make(Opcode::OpConstant, vec![4]),
            make(Opcode::OpSliceIndex, vec![]),
            make(Opcode::OpPop, vec![])],
        },
        CompilerTestCase {
            input: String::from("[1, 2, 3][1:]"),
            expected_constants: vec![Object::Integer(1),
            Object::Integer(2),
            Object::Integer(3),
            Object::Integer(1)],
            expected_instructions: vec![make(Opcode::OpConstant, vec![0]),
            make(Opcode::OpConstant, vec![1]),
            make(Opcode::OpConstant, vec![2]),
            make(Opcode::OpArray, vec![3]),
            make(Opcode::OpConstant, vec![3]),
            make(Opcode::OpNull, vec![]),
            make(Opcode::OpSliceIndex, vec![]),
            make(Opcode::OpPop, vec![])],
        },
        CompilerTestCase {
            input: String::from("[1, 2, 3][:2]"),
            expected_constants: vec![Object::Integer(1),
            Object::Integer(2),
            Object::Integer(3),
            Object::Integer(2)],
            expected_instructions: vec![make(Opcode::OpConstant, vec![0]),
            make(Opcode::OpConstant, vec![1]),
            make(Opcode::OpConstant, vec![2]),
            make(Opcode::OpArray, vec![3]),
            make(Opcode::OpNull, vec![]),
            make(Opcode::OpConstant, vec![3]),
            make(Opcode::OpSliceIndex, vec![]),
            make(Opcode::OpPop, vec![])],
        },
        CompilerTestCase {
            input: String::from("[1, 2, 3][:]"),
            expected_constants: vec![Object::Integer(1),
            Object::Integer(2),
            Object::Integer(3)],
            expected_instructions: vec![make(Opcode::OpConstant, vec![0]),
            make(Opcode::OpConstant, vec![1]),
            make(Opcode::OpConstant, vec![2]),
            make(Opcode::OpArray, vec![3]),
            make(Opcode::OpNull, vec![]),
            make(Opcode::OpNull, vec![]),
            make(Opcode::OpSliceIndex, vec![]),
            make(Opcode::OpPop, vec![])],
        },
        // String slicing, not supported in the book
        CompilerTestCase {
            input: String::from("\"monkey\"[1:2]"),
            expected_constants: vec![Object::String(String::from("monkey")),
            Object::Integer(1),
            Object::Integer(2)],
            expected_instructions: vec![make(Opcode::OpConstant, vec![0]),
            make(Opcode::OpConstant, vec![1]),
            make(Opcode::OpConstant, vec![2]),
            make(Opcode::OpSliceIndex, vec![]),
            make(Opcode::OpPop, vec![])],
        },
    ];

    run_compiler_tests(tests);
}

#[test]
fn test_functions() {
    let tests = vec![
        CompilerTestCase {
            input: String::from("fn() { return 5 + 10 }"),
            expected_constants: vec![Object::Integer(5),
            Object::Integer(10),
            compiled_function(vec![
                make(Opcode::OpConstant, vec![0]),
                make(Opcode::OpConstant, vec![1]),
                make(Opcode::OpAdd, vec![]),
                make(Opcode::OpReturnValue, vec![]),
            ])],
            expected_instructions: vec![make(Opcode::OpClosure, vec![2, 0]),
            make(Opcode::OpPop, vec![])],
        },
        CompilerTestCase {
            input: String::from("fn() { 5 + 10 }"),
            expected_constants: vec![Object::Integer(5),
            Object::Integer(10),
            compiled_function(vec![
                make(Opcode::OpConstant, vec![0]),
                make(Opcode::OpConstant, vec![1]),
                make(Opcode::OpAdd, vec![]),
                make(Opcode::OpReturnValue, vec![]),
            ])],
            expected_instructions: vec![make(Opcode::OpClosure, vec![2, 0]),
            make(Opcode::OpPop, vec![])],
        },
        CompilerTestCase {
            input: String::from("fn() { 1; 2 }"),
            expected_constants: vec![Object::Integer(1),
            Object::Integer(2),
            compiled_function(vec![
                make(Opcode::OpConstant, vec![0]),
                make(Opcode::OpPop, vec![]),
                make(Opcode::OpConstant, vec![1]),
                make(Opcode::OpReturnValue, vec![]),
            ])],
            expected_instructions: vec![make(Opcode::OpClosure, vec![2, 0]),
            make(Opcode::OpPop, vec![])],
        },
    ];

    run_compiler_tests(tests);
}

#[test]
fn test_compiler_scopes() {
    let mut compiler = Compiler::new();
    let global_sym = compiler.symbol_table.clone();

    assert_eq!(compiler.scope_index, 0);

    compiler.emit(Opcode::OpMul, vec![]);

    compiler.enter_scope();
    assert_eq!(compiler.scope_index, 1);

    compiler.emit(Opcode::OpSub, vec![]);
    assert_eq!(compiler.scopes[compiler.scope_index].instructions.len(), 1);
    assert_eq!(
        compiler.scopes[compiler.scope_index]
            .last_instruction
            .clone()
            .unwrap()
            .opcode,
        Opcode::OpSub
    );
    assert_eq!(compiler.symbol_table.outer, Some(Box::new(global_sym.clone())));

    compiler.leave_scope();
    assert_eq!(compiler.scope_index, 0);
    assert_eq!(compiler.symbol_table.clone(), global_sym);
    assert_eq!(compiler.symbol_table.outer, None);

    compiler.emit(Opcode::OpAdd, vec![]);

    assert_eq!(compiler.scopes[compiler.scope_index].instructions.len(), 2);
    assert_eq!(
        compiler.scopes[compiler.scope_index]
            .last_instruction
            .clone()
            .unwrap()
            .opcode,
        Opcode::OpAdd
    );
    assert_eq!(
        compiler.scopes[compiler.scope_index]
            .previous_instruction
            .clone()
            .unwrap()
            .opcode,
        Opcode::OpMul
    );
}

#[test]
fn test_functions_without_return_value() {
    let tests = vec![CompilerTestCase {
            input: String::from("fn() { }"),
            expected_constants: vec![compiled_function(vec![
            make(Opcode::OpReturn, vec![]),
        ])],
            expected_instructions: vec![make(Opcode::OpClosure, vec![0, 0]),
        make(Opcode::OpPop, vec![])],
        }];

    run_compiler_tests(tests);
}

#[test]
fn test_function_calls() {
    let tests = vec![
        CompilerTestCase {
            input: String::from("fn() { 24 }()"),
            expected_constants: vec![Object::Integer(24),
            compiled_function(vec![
                make(Opcode::OpConstant, vec![0]),
                make(Opcode::OpReturnValue, vec![]),
            ])],
            expected_instructions: vec![make(Opcode::OpClosure, vec![1, 0]),
            make(Opcode::OpCall, vec![0]),
            make(Opcode::OpPop, vec![])],
        },
        CompilerTestCase {
            input: String::from("let noArg = fn() { 24 }; noArg();"),
            expected_constants: vec![Object::Integer(24),
            compiled_function(vec![
                make(Opcode::OpConstant, vec![0]),
                make(Opcode::OpReturnValue, vec![]),
            ])],
            expected_instructions: vec![make(Opcode::OpClosure, vec![1, 0]),
            make(Opcode::OpSetGlobal, vec![0]),
            make(Opcode::OpGetGlobal, vec![0]),
            make(Opcode::OpCall, vec![0]),
            make(Opcode::OpPop, vec![])],
        },
        CompilerTestCase {
            input: String::from("let oneArg = fn(a) { a }; oneArg(24);"),
            expected_constants: vec![compiled_function(vec![
                make(Opcode::OpGetLocal, vec![0]),
                make(Opcode::OpReturnValue, vec![]),
            ]),
            Object::Integer(24)],
            expected_instructions: vec![make(Opcode::OpClosure, vec![0, 0]),
            make(Opcode::OpSetGlobal, vec![0]),
            make(Opcode::OpGetGlobal, vec![0]),
            make(Opcode::OpConstant, vec![1]),
            make(Opcode::OpCall, vec![1]),
            make(Opcode::OpPop, vec![])],
        },
        CompilerTestCase {
            input: String::from("let manyArg = fn(a, b, c) { a; b; c }; manyArg(24, 25, 26);"),
            expected_constants: vec![compiled_function(vec![
                make(Opcode::OpGetLocal, vec![0]),
                make(Opcode::OpPop, vec![]),
                make(Opcode::OpGetLocal, vec![1]),
                make(Opcode::OpPop, vec![]),
                make(Opcode::OpGetLocal, vec![2]),
                make(Opcode::OpReturnValue, vec![]),
            ]),
            Object::Integer(24),
            Object::Integer(25),
            Object::Integer(26)],
            expected_instructions: vec![make(Opcode::OpClosure, vec![0, 0]),
            make(Opcode::OpSetGlobal, vec![0]),
            make(Opcode::OpGetGlobal, vec![0]),
            make(Opcode::OpConstant, vec![1]),
            make(Opcode::OpConstant, vec![2]),
            make(Opcode::OpConstant, vec![3]),
            make(Opcode::OpCall, vec![3]),
            make(Opcode::OpPop, vec![])],
        },
    ];

    run_compiler_tests(tests);
}

#[test]
fn test_let_statement_scopes() {
    let tests = vec![
        CompilerTestCase {
            input: String::from("let num = 55; fn() { num }"),
            expected_constants: vec![Object::Integer(55),
            compiled_function(vec![
                make(Opcode::OpGetGlobal, vec![0]),
                make(Opcode::OpReturnValue, vec![]),
            ])],
            expected_instructions: vec![make(Opcode::OpConstant, vec![0]),
            make(Opcode::OpSetGlobal, vec![0]),
            make(Opcode::OpClosure, vec![1, 0]),
            make(Opcode::OpPop, vec![])],
        },
        CompilerTestCase {
            input: String::from("fn() { let num = 55; num }"),
            expected_constants: vec![Object::Integer(55),
            compiled_function(vec![
                make(Opcode::OpConstant, vec![0]),
                make(Opcode::OpSetLocal, vec![0]),
                make(Opcode::OpGetLocal, vec![0]),
                make(Opcode::OpReturnValue, vec![]),
            ])],
            expected_instructions: vec![make(Opcode::OpClosure, vec![1, 0]),
            make(Opcode::OpPop, vec![])],
        },
        CompilerTestCase {
            input: String::from("fn() { let a = 55; let b = 77; a + b }"),
            expected_constants: vec![Object::Integer(55),
            Object::Integer(77),
            compiled_function(vec![
                make(Opcode::OpConstant, vec![0]),
                make(Opcode::OpSetLocal, vec![0]),
                make(Opcode::OpConstant, vec![1]),
                make(Opcode::OpSetLocal, vec![1]),
                make(Opcode::OpGetLocal, vec![0]),
                make(Opcode::OpGetLocal, vec![1]),
                make(Opcode::OpAdd, vec![]),
                make(Opcode::OpReturnValue, vec![]),
            ])],
            expected_instructions: vec![make(Opcode::OpClosure, vec![2, 0]),
            make(Opcode::OpPop, vec![])],
        },
    ];

    run_compiler_tests(tests);
}

#[test]
fn test_builtins() {
    let tests = vec![
        CompilerTestCase {
            input: String::from("len([]); push([], 1);"),
            expected_constants: vec![Object::Integer(1)],
            expected_instructions: vec![make(Opcode::OpGetBuiltin, vec![0]),
            make(Opcode::OpArray, vec![0]),
            make(Opcode::OpCall, vec![1]),
            make(Opcode::OpPop, vec![]),
            make(Opcode::OpGetBuiltin, vec![5]),
            make(Opcode::OpArray, vec![0]),
            make(Opcode::OpConstant, vec![0]),
            make(Opcode::OpCall, vec![2]),
            make(Opcode::OpPop, vec![])],
        },
        CompilerTestCase {
            input: String::from("fn() { len([]) }"),
            expected_constants: vec![compiled_function(vec![
                make(Opcode::OpGetBuiltin, vec![0]),
                make(Opcode::OpArray, vec![0]),
                make(Opcode::OpCall, vec![1]),
                make(Opcode::OpReturnValue, vec![]),
            ])],
            expected_instructions: vec![make(Opcode::OpClosure, vec![0, 0]),
            make(Opcode::OpPop, vec![])],
        },
    ];

    run_compiler_tests(tests);
}

fn parse(input: String) -> Program {
    let lexer = Lexer::new(input);
    let mut parser = Parser::new(lexer);
    parser.parse_program()
}

fn run_compiler_tests(tests: Vec<CompilerTestCase>) {
    for test in tests {
        let program = parse(test.input);
        let mut compiler = Compiler::new();
        compiler.compile(&program).unwrap();
        let bytecode = compiler.bytecode();

        test_instructions(test.expected_instructions, bytecode.instructions);
        test_constants(test.expected_constants, bytecode.constants);
    }
}

fn test_instructions(expected: Vec<Instructions>, actual: Instructions) {
    let concatted = concat_instructions(expected);

    assert_eq!(
        concatted,
        actual,
        "wrong instructions: expected={:?}, actual={:?}",
        instructions_string(&concatted),
        instructions_string(&actual)
    );
}

fn concat_instructions(instructions: Vec<Instructions>) -> Instructions {
    let mut out = Instructions::new();
    for instruction in instructions {
        out.extend(instruction);
    }
    out
}

fn test_constants(expected: Vec<Object>, actual: Vec<Object>) {
    for (i, obj) in expected.iter().enumerate() {
        match obj {
            Object::CompiledFunction(expected) => {
                let actual = match &actual[i] {
                    Object::CompiledFunction(actual) => actual,
                    _ => panic!("object is not a CompiledFunction: {:?}", &actual[i]),
                };
                assert_eq!(expected.instructions, actual.instructions);
            }
            _ => assert_eq!(obj, &actual[i]),
        }
    }
}
