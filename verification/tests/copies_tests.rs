use monkey::compiler::{Bytecode, Compiler};
use monkey::eval::environment::Environment;
use monkey::lexer::Lexer;
use monkey::object::Object;
use monkey::parser::Parser;
use monkey::vm::VM;

fn compiler_after(input: &str) -> Compiler {
    let lexer = Lexer::new(input.to_string());
    let mut parser = Parser::new(lexer);
    let program = parser.parse_program();
    assert!(parser.errors.is_empty());
    let mut compiler = Compiler::new();
    compiler.compile(&program).unwrap();
    compiler
}

#[test]
fn a_copy_of_a_compiler_goes_on_as_the_compiler_would() {
    let compiler = compiler_after("let a = [1, 2]; let f = fn(x) { x + a[0] };");
    let mut copy = compiler.clone();
    assert_eq!(copy, compiler);
    let bytecode: Bytecode = compiler.bytecode();
    assert_eq!(bytecode.clone(), bytecode);
    assert_eq!(copy.bytecode(), bytecode);
    copy.reset();
    assert_eq!(copy.constants, compiler.constants);
    assert_eq!(copy.symbol_table, compiler.symbol_table);
}

#[test]
fn a_copy_of_a_machine_runs_as_the_machine_would() {
    let compiler = compiler_after("let f = fn(x) { puts(x); x * 2 }; f(21)");
    let mut vm = VM::new(compiler.bytecode());
    assert_eq!(vm.step(), Ok(()));
    assert_eq!(vm.step(), Ok(()));
    let mut copy = vm.clone();
    assert_eq!(copy, vm);
    assert_eq!(vm.run(), Ok(()));
    assert_eq!(copy.run(), Ok(()));
    assert_eq!(copy, vm);
    assert_eq!(copy.last_popped_stack_elem(), Object::Integer(42));
    assert_eq!(copy.output, vec!["21"]);
}

#[test]
fn a_copy_of_an_environment_holds_the_same() {
    let mut env = Environment::new(Some(1));
    env.set(&"a".to_string(), Object::Array(vec![Object::Integer(1)]));
    let copy = env.clone();
    assert_eq!(copy, env);
    env.set(&"a".to_string(), Object::Null);
    assert_eq!(copy.get(&"a".to_string()), Some(Object::Array(vec![Object::Integer(1)])));
}
