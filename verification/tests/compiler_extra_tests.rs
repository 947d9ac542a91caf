use monkey::code::{make, Instructions, Opcode};
use monkey::compiler::{Bytecode, Compiler};
use monkey::lexer::token::Token;
use monkey::lexer::Lexer;
use monkey::object::{CompiledFunction, Object};
use monkey::parser::ast::{Expression, Program, Statement};
use monkey::parser::Parser;

fn parse(input: &str) -> Program {
    let lexer = Lexer::new(input.to_string());
    let mut parser = Parser::new(lexer);
    let program = parser.parse_program();
    assert_eq!(parser.errors, Vec::<String>::new(), "{}", input);
    program
}

fn compile(input: &str) -> Bytecode {
    let mut compiler = Compiler::new();
    compiler.compile(&parse(input)).unwrap();
    compiler.bytecode()
}

fn failure(input: &str) -> String {
    let mut compiler = Compiler::new();
    compiler.compile(&parse(input)).unwrap_err().to_string()
}

fn concat(instructions: Vec<Instructions>) -> Instructions {
    instructions.into_iter().flatten().collect()
}

fn function(constant: &Object) -> &CompiledFunction {
    match constant {
        Object::CompiledFunction(function) => function,
        other => panic!("not a function: {:?}", other),
    }
}

/// The offsets at which the instructions of `code` start, and its length
/// at the end.
fn boundaries(code: &[u8]) -> Vec<usize> {
    let mut out = vec![];
    let mut at = 0;
    while at < code.len() {
        out.push(at);
        at += Opcode::from_byte(code[at]).unwrap().instruction_len();
    }
    assert_eq!(at, code.len());
    out.push(at);
    out
}

/// Every jump of `code` leads to the start of an instruction or to the
/// end.
fn assert_jumps_lead_to_instructions(code: &[u8]) {
    let starts = boundaries(code);
    for at in &starts[..starts.len() - 1] {
        let op = Opcode::from_byte(code[*at]).unwrap();
        if op == Opcode::OpJump || op == Opcode::OpJumpNotTruthy {
            let target = (code[at + 1] as usize) * 256 + code[at + 2] as usize;
            assert!(starts.contains(&target), "jump at {} to {}", at, target);
        }
    }
}

/// Every local that `function` reads or writes has a slot.
fn assert_locals_have_slots(function: &CompiledFunction) {
    assert!(function.num_locals >= function.num_parameters);
    let code = &function.instructions;
    let starts = boundaries(code);
    for at in &starts[..starts.len() - 1] {
        let op = Opcode::from_byte(code[*at]).unwrap();
        if op == Opcode::OpGetLocal || op == Opcode::OpSetLocal {
            assert!((code[at + 1] as usize) < function.num_locals);
        }
    }
}

#[test]
fn closures_capture_what_they_use() {
    let bytecode = compile("fn(a) { fn(b) { a + b } }");
    assert_eq!(
        bytecode.instructions,
        concat(vec![make(Opcode::OpClosure, vec![1, 0]), make(Opcode::OpPop, vec![])])
    );
    let inner = function(&bytecode.constants[0]);
    assert_eq!(
        inner.instructions,
        concat(vec![
            make(Opcode::OpGetFree, vec![0]),
            make(Opcode::OpGetLocal, vec![0]),
            make(Opcode::OpAdd, vec![]),
            make(Opcode::OpReturnValue, vec![]),
        ])
    );
    assert_eq!((inner.num_locals, inner.num_parameters), (1, 1));
    let outer = function(&bytecode.constants[1]);
    assert_eq!(
        outer.instructions,
        concat(vec![
            make(Opcode::OpGetLocal, vec![0]),
            make(Opcode::OpClosure, vec![0, 1]),
            make(Opcode::OpReturnValue, vec![]),
        ])
    );
    assert_eq!((outer.num_locals, outer.num_parameters), (1, 1));
}

#[test]
fn captured_values_pass_through_every_function_between() {
    let bytecode = compile("fn(a) { fn(b) { fn(c) { a + b + c } } };");
    let innermost = function(&bytecode.constants[0]);
    assert_eq!(
        innermost.instructions,
        concat(vec![
            make(Opcode::OpGetFree, vec![0]),
            make(Opcode::OpGetFree, vec![1]),
            make(Opcode::OpAdd, vec![]),
            make(Opcode::OpGetLocal, vec![0]),
            make(Opcode::OpAdd, vec![]),
            make(Opcode::OpReturnValue, vec![]),
        ])
    );
    let middle = function(&bytecode.constants[1]);
    assert_eq!(
        middle.instructions,
        concat(vec![
            make(Opcode::OpGetFree, vec![0]),
            make(Opcode::OpGetLocal, vec![0]),
            make(Opcode::OpClosure, vec![0, 2]),
            make(Opcode::OpReturnValue, vec![]),
        ])
    );
    let outer = function(&bytecode.constants[2]);
    assert_eq!(
        outer.instructions,
        concat(vec![
            make(Opcode::OpGetLocal, vec![0]),
            make(Opcode::OpClosure, vec![1, 1]),
            make(Opcode::OpReturnValue, vec![]),
        ])
    );
}

#[test]
fn a_function_bound_by_let_calls_itself_as_the_current_closure() {
    let bytecode = compile("let countDown = fn(x) { countDown(x - 1); }; countDown(1);");
    assert_eq!(
        bytecode.instructions,
        concat(vec![
            make(Opcode::OpClosure, vec![1, 0]),
            make(Opcode::OpSetGlobal, vec![0]),
            make(Opcode::OpGetGlobal, vec![0]),
            make(Opcode::OpConstant, vec![2]),
            make(Opcode::OpCall, vec![1]),
            make(Opcode::OpPop, vec![]),
        ])
    );
    assert_eq!(
        function(&bytecode.constants[1]).instructions,
        concat(vec![
            make(Opcode::OpCurrentClosure, vec![]),
            make(Opcode::OpGetLocal, vec![0]),
            make(Opcode::OpConstant, vec![0]),
            make(Opcode::OpSub, vec![]),
            make(Opcode::OpCall, vec![1]),
            make(Opcode::OpReturnValue, vec![]),
        ])
    );
}

#[test]
fn a_parameter_shadows_the_functions_own_name() {
    let bytecode = compile("let f = fn(f) { f };");
    assert_eq!(
        function(&bytecode.constants[0]).instructions,
        concat(vec![make(Opcode::OpGetLocal, vec![0]), make(Opcode::OpReturnValue, vec![])])
    );
}

#[test]
fn a_name_is_defined_after_its_value_unless_the_value_is_its_own_function() {
    assert_eq!(failure("let x = x;"), "undefined variable: x");
    let bytecode = compile("let x = 1; let x = x + 1; x");
    assert_eq!(
        bytecode.instructions,
        concat(vec![
            make(Opcode::OpConstant, vec![0]),
            make(Opcode::OpSetGlobal, vec![0]),
            make(Opcode::OpGetGlobal, vec![0]),
            make(Opcode::OpConstant, vec![1]),
            make(Opcode::OpAdd, vec![]),
            make(Opcode::OpSetGlobal, vec![1]),
            make(Opcode::OpGetGlobal, vec![1]),
            make(Opcode::OpPop, vec![]),
        ])
    );
}

#[test]
fn a_name_that_nothing_defines_is_an_error() {
    assert_eq!(failure("x"), "undefined variable: x");
    assert_eq!(failure("fn() { y }"), "undefined variable: y");
    assert_eq!(failure("1; 2; foo(3)"), "undefined variable: foo");
}

#[test]
fn an_operator_that_the_compiler_does_not_know_is_an_error() {
    let one = || Box::new(Expression::Integer(1));
    let mut compiler = Compiler::new();
    let program = Program {
        statements: vec![Statement::Expression(Expression::Infix(Token::Bang, one(), one()))],
    };
    assert_eq!(
        compiler.compile(&program).unwrap_err().to_string(),
        "unknown operator: !"
    );
    let mut compiler = Compiler::new();
    let program = Program {
        statements: vec![Statement::Expression(Expression::Prefix(Token::Plus, one()))],
    };
    assert_eq!(
        compiler.compile(&program).unwrap_err().to_string(),
        "unknown operator: +"
    );
}

#[test]
fn the_pairs_of_a_hash_come_in_the_order_of_their_printed_keys() {
    let bytecode = compile("{2: 20, 1: 10}");
    assert_eq!(
        bytecode.constants,
        vec![
            Object::Integer(1),
            Object::Integer(10),
            Object::Integer(2),
            Object::Integer(20)
        ]
    );
    assert_eq!(
        bytecode.instructions,
        concat(vec![
            make(Opcode::OpConstant, vec![0]),
            make(Opcode::OpConstant, vec![1]),
            make(Opcode::OpConstant, vec![2]),
            make(Opcode::OpConstant, vec![3]),
            make(Opcode::OpHash, vec![4]),
            make(Opcode::OpPop, vec![]),
        ])
    );
    let bytecode = compile("{9: 0, 10: 1, \"b\": 2, \"a\": 3, 1 + 1: 4}");
    assert_eq!(
        bytecode.constants,
        vec![
            Object::Integer(1),
            Object::Integer(1),
            Object::Integer(4),
            Object::Integer(10),
            Object::Integer(1),
            Object::Integer(9),
            Object::Integer(0),
            Object::String("a".to_string()),
            Object::Integer(3),
            Object::String("b".to_string()),
            Object::Integer(2),
        ]
    );
    let bytecode = compile("{\"x\": 1, \"x\": 2}");
    assert_eq!(
        bytecode.constants,
        vec![
            Object::String("x".to_string()),
            Object::Integer(1),
            Object::String("x".to_string()),
            Object::Integer(2),
        ]
    );
}

#[test]
fn constants_are_not_shared() {
    let bytecode = compile("1; 1; \"a\"; \"a\"");
    assert_eq!(
        bytecode.constants,
        vec![
            Object::Integer(1),
            Object::Integer(1),
            Object::String("a".to_string()),
            Object::String("a".to_string()),
        ]
    );
}

#[test]
fn a_branch_without_a_value_leaves_the_jumps_in_place() {
    let bytecode = compile("if (true) { } else { let a = 1; }");
    assert_eq!(
        bytecode.instructions,
        concat(vec![
            make(Opcode::OpTrue, vec![]),
            make(Opcode::OpJumpNotTruthy, vec![7]),
            make(Opcode::OpJump, vec![13]),
            make(Opcode::OpConstant, vec![0]),
            make(Opcode::OpSetGlobal, vec![0]),
            make(Opcode::OpPop, vec![]),
        ])
    );
}

#[test]
fn reset_keeps_the_globals_and_the_constants() {
    let mut compiler = Compiler::new();
    compiler.compile(&parse("let a = 1;")).unwrap();
    compiler.reset();
    assert_eq!(compiler.bytecode().instructions, Vec::<u8>::new());
    compiler.compile(&parse("a; let b = 2; len")).unwrap();
    let bytecode = compiler.bytecode();
    assert_eq!(
        bytecode.instructions,
        concat(vec![
            make(Opcode::OpGetGlobal, vec![0]),
            make(Opcode::OpPop, vec![]),
            make(Opcode::OpConstant, vec![1]),
            make(Opcode::OpSetGlobal, vec![1]),
            make(Opcode::OpGetBuiltin, vec![0]),
            make(Opcode::OpPop, vec![]),
        ])
    );
    assert_eq!(bytecode.constants, vec![Object::Integer(1), Object::Integer(2)]);
}

#[test]
fn reset_after_an_error_inside_a_function_goes_back_to_the_outermost_scope() {
    let mut compiler = Compiler::new();
    compiler.compile(&parse("let a = 1;")).unwrap();
    assert!(compiler.compile(&parse("fn(x) { fn(y) { nothing } }")).is_err());
    assert_eq!(compiler.scopes.len(), 3);
    compiler.reset();
    assert_eq!(compiler.scopes.len(), 1);
    assert_eq!(compiler.scope_index, 0);
    assert_eq!(compiler.symbol_table.outer, None);
    compiler.compile(&parse("let b = a;")).unwrap();
    assert_eq!(
        compiler.bytecode().instructions,
        concat(vec![make(Opcode::OpGetGlobal, vec![0]), make(Opcode::OpSetGlobal, vec![1])])
    );
}

#[test]
fn emitted_positions_and_the_last_two_instructions() {
    let mut compiler = Compiler::new();
    assert!(!compiler.last_instruction_is(Opcode::OpPop));
    assert_eq!(compiler.emit(Opcode::OpConstant, vec![1]), 0);
    assert_eq!(compiler.emit(Opcode::OpPop, vec![]), 3);
    assert!(compiler.last_instruction_is(Opcode::OpPop));
    assert_eq!(compiler.add_constant(Object::Null), 0);
    assert_eq!(compiler.add_constant(Object::Null), 1);
    compiler.remove_last_pop();
    assert!(compiler.last_instruction_is(Opcode::OpConstant));
    assert_eq!(compiler.current_instructions(), &vec![0, 0, 1]);
    compiler.change_operand(0, 515);
    assert_eq!(compiler.current_instructions(), &vec![0, 2, 3]);
    compiler.change_operand(5, 1);
    compiler.replace_instruction(2, vec![9, 9]);
    assert_eq!(compiler.current_instructions(), &vec![0, 2, 3]);
    compiler.replace_instruction(1, vec![9, 9]);
    assert_eq!(compiler.current_instructions(), &vec![0, 9, 9]);
    compiler.emit(Opcode::OpPop, vec![]);
    assert_eq!(compiler.replace_last_pop_with_return(), Ok(()));
    assert!(compiler.last_instruction_is(Opcode::OpReturnValue));
    assert_eq!(compiler.current_instructions(), &vec![0, 9, 9, 23]);
    let mut compiler = Compiler::new();
    assert_eq!(
        compiler.replace_last_pop_with_return().unwrap_err().to_string(),
        "no last instruction to replace"
    );
}

const PROGRAMS: [&str; 12] = [
    "if (1 < 2) { 10 } else { 20 }; 3333;",
    "if (true) { if (false) { 1 } else { 2 } } else { if (true) { 3 } }",
    "let f = fn(a) { if (a) { return 1; } else { 2 } }; f(true)",
    "fn() { if (true) { } }",
    "if (if (true) { false }) { 1; 2 } else { 3; if (true) { 4 }; 5 }",
    "let a = 1; let b = fn(x) { let c = x + a; fn(y) { if (y) { c } else { a } } };",
    "[if (true) { 1 }, if (false) { 2 } else { 3 }]",
    "{1: if (true) { 2 }}[if (true) { 1 }]",
    "let g = fn(a, b, c) { let d = a; let e = b; fn() { d + e + c } };",
    "fn(a) { fn(b) { fn(c) { fn(d) { a + b + c + d } } } }",
    "let fib = fn(x) { if (x < 2) { x } else { fib(x - 1) + fib(x - 2) } }; fib(5)",
    "if (true) { let a = 1; } else { }",
];

#[test]
fn every_jump_leads_to_an_instruction() {
    for input in PROGRAMS {
        let bytecode = compile(input);
        assert_jumps_lead_to_instructions(&bytecode.instructions);
        for constant in &bytecode.constants {
            if let Object::CompiledFunction(function) = constant {
                assert_jumps_lead_to_instructions(&function.instructions);
            }
        }
    }
}

#[test]
fn every_local_of_a_function_has_a_slot() {
    for input in PROGRAMS {
        let bytecode = compile(input);
        for constant in &bytecode.constants {
            if let Object::CompiledFunction(function) = constant {
                assert_locals_have_slots(function);
            }
        }
    }
    let bytecode = compile("fn(a, b) { let c = 1; let d = 2; c }");
    let compiled = function(&bytecode.constants[2]);
    assert_eq!((compiled.num_locals, compiled.num_parameters), (4, 2));
    let bytecode = compile("fn(a, a) { a }");
    let compiled = function(&bytecode.constants[0]);
    assert_eq!((compiled.num_locals, compiled.num_parameters), (2, 2));
    assert_eq!(
        compiled.instructions,
        concat(vec![make(Opcode::OpGetLocal, vec![1]), make(Opcode::OpReturnValue, vec![])])
    );
}
