use monkey::code::instructions_string;
use monkey::compiler::Compiler;
use monkey::lexer::Lexer;
use monkey::object::{HashKey, Object};
use monkey::parser::ast::{Node, Program};
use monkey::parser::Parser;
use monkey::vm::VM;

struct VMTestCase {
    input: String,
    expected: Result<Object, String>,
}

#[test]
fn tests_test_integer_arithmetic() {
    let tests = vec![
        VMTestCase { input: String::from("1"), expected: Ok(Object::Integer(1)) },
        VMTestCase { input: String::from("2"), expected: Ok(Object::Integer(2)) },
        VMTestCase { input: String::from("1 + 2"), expected: Ok(Object::Integer(3)) },
        VMTestCase { input: String::from("1 - 2"), expected: Ok(Object::Integer(-1)) },
        VMTestCase { input: String::from("1 * 2"), expected: Ok(Object::Integer(2)) },
        VMTestCase { input: String::from("4 / 2"), expected: Ok(Object::Integer(2)) },
        VMTestCase { input: String::from("50 / 2 * 2 + 10 - 5"), expected: Ok(Object::Integer(55)) },
        VMTestCase { input: String::from("5 + 5 + 5 + 5 - 10"), expected: Ok(Object::Integer(10)) },
        VMTestCase { input: String::from("2 * 2 * 2 * 2 * 2"), expected: Ok(Object::Integer(32)) },
        VMTestCase { input: String::from("5 * 2 + 10"), expected: Ok(Object::Integer(20)) },
        VMTestCase { input: String::from("5 + 2 * 10"), expected: Ok(Object::Integer(25)) },
        VMTestCase { input: String::from("5 * (2 + 10)"), expected: Ok(Object::Integer(60)) },
        VMTestCase { input: String::from("-5"), expected: Ok(Object::Integer(-5)) },
        VMTestCase { input: String::from("-10"), expected: Ok(Object::Integer(-10)) },
        VMTestCase { input: String::from("-50 + 100 + -50"), expected: Ok(Object::Integer(0)) },
        VMTestCase { input: String::from("(5 + 10 * 2 + 15 / 3) * 2 + -10"), expected: Ok(Object::Integer(50)) },
    ];

    run_vm_tests(tests);
}

#[test]
fn tests_test_boolean_expressions() {
    let tests = vec![
        VMTestCase { input: String::from("true"), expected: Ok(Object::Boolean(true)) },
        VMTestCase { input: String::from("false"), expected: Ok(Object::Boolean(false)) },
        VMTestCase { input: String::from("1 < 2"), expected: Ok(Object::Boolean(true)) },
        VMTestCase { input: String::from("1 > 2"), expected: Ok(Object::Boolean(false)) },
        VMTestCase { input: String::from("1 < 1"), expected: Ok(Object::Boolean(false)) },
        VMTestCase { input: String::from("1 > 1"), expected: Ok(Object::Boolean(false)) },
        VMTestCase { input: String::from("1 == 1"), expected: Ok(Object::Boolean(true)) },
        VMTestCase { input: String::from("1 != 1"), expected: Ok(Object::Boolean(false)) },
        VMTestCase { input: String::from("1 == 2"), expected: Ok(Object::Boolean(false)) },
        VMTestCase { input: String::from("1 != 2"), expected: Ok(Object::Boolean(true)) },
        VMTestCase { input: String::from("true == true"), expected: Ok(Object::Boolean(true)) },
        VMTestCase { input: String::from("false == false"), expected: Ok(Object::Boolean(true)) },
        VMTestCase { input: String::from("true == false"), expected: Ok(Object::Boolean(false)) },
        VMTestCase { input: String::from("true != false"), expected: Ok(Object::Boolean(true)) },
        VMTestCase { input: String::from("false != true"), expected: Ok(Object::Boolean(true)) },
        VMTestCase { input: String::from("(1 < 2) == true"), expected: Ok(Object::Boolean(true)) },
        VMTestCase { input: String::from("(1 < 2) == false"), expected: Ok(Object::Boolean(false)) },
        VMTestCase { input: String::from("(1 > 2) == true"), expected: Ok(Object::Boolean(false)) },
        VMTestCase { input: String::from("(1 > 2) == false"), expected: Ok(Object::Boolean(true)) },
        VMTestCase { input: String::from("!true"), expected: Ok(Object::Boolean(false)) },
        VMTestCase { input: String::from("!false"), expected: Ok(Object::Boolean(true)) },
        VMTestCase { input: String::from("!5"), expected: Ok(Object::Boolean(false)) },
        VMTestCase { input: String::from("!!true"), expected: Ok(Object::Boolean(true)) },
        VMTestCase { input: String::from("!!false"), expected: Ok(Object::Boolean(false)) },
        VMTestCase { input: String::from("!!5"), expected: Ok(Object::Boolean(true)) },
        VMTestCase { input: String::from("!(if (false) { 5; })"), expected: Ok(Object::Boolean(true)) },
    ];

    run_vm_tests(tests);
}

#[test]
fn tests_test_conditionals() {
    let tests = vec![
        VMTestCase { input: String::from("if (true) { 10 }"), expected: Ok(Object::Integer(10)) },
        VMTestCase { input: String::from("if (true) { 10 } else { 20 }"), expected: Ok(Object::Integer(10)) },
        VMTestCase { input: String::from("if (false) { 10 } else { 20 }"), expected: Ok(Object::Integer(20)) },
        VMTestCase { input: String::from("if (1) { 10 }"), expected: Ok(Object::Integer(10)) },
        VMTestCase { input: String::from("if (1 < 2) { 10 }"), expected: Ok(Object::Integer(10)) },
        VMTestCase { input: String::from("if (1 < 2) { 10 } else { 20 }"), expected: Ok(Object::Integer(10)) },
        VMTestCase { input: String::from("if (1 > 2) { 10 } else { 20 }"), expected: Ok(Object::Integer(20)) },
        VMTestCase { input: String::from("if (1 > 2) { 10 }"), expected: Ok(Object::Null) },
        VMTestCase { input: String::from("if (false) { 10 }"), expected: Ok(Object::Null) },
        VMTestCase { input: String::from("if ((if (false) { 10 })) { 10 } else { 20 }"), expected: Ok(Object::Integer(20)) },
    ];

    run_vm_tests(tests);
}

#[test]
fn tests_test_global_let_statements() {
    let tests = vec![
        VMTestCase { input: String::from("let one = 1; one"), expected: Ok(Object::Integer(1)) },
        VMTestCase { input: String::from("let one = 1; let two = 2; one + two"), expected: Ok(Object::Integer(3)) },
        VMTestCase { input: String::from("let one = 1; let two = one + one; one + two"), expected: Ok(Object::Integer(3)) },
    ];

    run_vm_tests(tests);
}

#[test]
fn tests_test_string_expressions() {
    let tests = vec![
        VMTestCase { input: String::from("\"monkey\""), expected: Ok(Object::String(String::from("monkey"))) },
        VMTestCase { input: String::from("\"mon\" + \"key\""), expected: Ok(Object::String(String::from("monkey"))) },
        VMTestCase { input: String::from("\"mon\" + \"key\" + \"banana\""), expected: Ok(Object::String(String::from("monkeybanana"))) },
    ];

    run_vm_tests(tests);
}

#[test]
fn tests_test_array_literals() {
    let tests = vec![
        VMTestCase { input: String::from("[]"), expected: Ok(Object::Array(vec![])) },
        VMTestCase { input: String::from("[1, 2, 3]"), expected: Ok(Object::Array(vec![
                Object::Integer(1),
                Object::Integer(2),
                Object::Integer(3),
            ])) },
        VMTestCase { input: String::from("[1 + 2, 3 * 4, 5 + 6]"), expected: Ok(Object::Array(vec![
                Object::Integer(3),
                Object::Integer(12),
                Object::Integer(11),
            ])) },
    ];

    run_vm_tests(tests);
}

#[test]
fn tests_test_hash_literals() {
    let tests = vec![
        VMTestCase { input: String::from("{}"), expected: Ok(Object::Hash(vec![])) },
        VMTestCase { input: String::from("{1: 2, 2: 3}"), expected: Ok(Object::Hash(vec![
                (HashKey::Integer(1), Object::Integer(2)),
                (HashKey::Integer(2), Object::Integer(3)),
            ])) },
        VMTestCase { input: String::from("{1 + 1: 2 * 2, 3 + 3: 4 * 4}"), expected: Ok(Object::Hash(vec![
                (HashKey::Integer(2), Object::Integer(4)),
                (HashKey::Integer(6), Object::Integer(16)),
            ])) },
    ];

    run_vm_tests(tests);
}

#[test]
fn tests_test_index_expressions() {
    let tests = vec![
        VMTestCase { input: String::from("[1, 2, 3][1]"), expected: Ok(Object::Integer(2)) },
        VMTestCase { input: String::from("[1, 2, 3][0 + 2]"), expected: Ok(Object::Integer(3)) },
        VMTestCase { input: String::from("[[1, 1, 1]][0][0]"), expected: Ok(Object::Integer(1)) },
        VMTestCase { input: String::from("[][0]"), expected: Ok(Object::Null) },
        VMTestCase { input: String::from("[1, 2, 3][99]"), expected: Ok(Object::Null) },
        VMTestCase { input: String::from("[1][-1]"), expected: Ok(Object::Integer(1)) },
        VMTestCase { input: String::from("{1: 1, 2: 2}[1]"), expected: Ok(Object::Integer(1)) },
        VMTestCase { input: String::from("{1: 1, 2: 2}[2]"), expected: Ok(Object::Integer(2)) },
        VMTestCase { input: String::from("{1: 1}[0]"), expected: Ok(Object::Null) },
        VMTestCase { input: String::from("{}[0]"), expected: Ok(Object::Null) },
        VMTestCase { input: String::from("[1, 2, 3][:]"), expected: Ok(Object::Array(vec![
                Object::Integer(1),
                Object::Integer(2),
                Object::Integer(3),
            ])) },
        VMTestCase { input: String::from("[1, 2, 3][1:]"), expected: Ok(Object::Array(vec![Object::Integer(2), Object::Integer(3)])) },
        VMTestCase { input: String::from("[1, 2, 3][:1]"), expected: Ok(Object::Array(vec![Object::Integer(1)])) },
        VMTestCase { input: String::from("[1, 2, 3][-1:]"), expected: Ok(Object::Array(vec![Object::Integer(3)])) },
        VMTestCase { input: String::from("[1, 2, 3][:-1]"), expected: Ok(Object::Array(vec![Object::Integer(1), Object::Integer(2)])) },
        VMTestCase { input: String::from("[1, 2, 3][1:2]"), expected: Ok(Object::Array(vec![Object::Integer(2)])) },
        VMTestCase { input: String::from("[1, 2, 3][1:3]"), expected: Ok(Object::Array(vec![Object::Integer(2), Object::Integer(3)])) },
        VMTestCase { input: String::from("[1, 2, 3][1:4]"), expected: Ok(Object::Array(vec![Object::Integer(2), Object::Integer(3)])) },
        VMTestCase { input: String::from("[1, 2, 3][4:5]"), expected: Ok(Object::Array(vec![])) },
        VMTestCase { input: String::from("\"Hello\"[1]"), expected: Ok(Object::String("e".to_string())) },
        VMTestCase { input: String::from("\"Hello\"[2]"), expected: Ok(Object::String("l".to_string())) },
        VMTestCase { input: String::from("\"Hello\"[0]"), expected: Ok(Object::String("H".to_string())) },
        VMTestCase { input: String::from("\"Hello\"[3]"), expected: Ok(Object::String("l".to_string())) },
        VMTestCase { input: String::from("\"Hello\"[4]"), expected: Ok(Object::String("o".to_string())) },
        VMTestCase { input: String::from("\"Hello\"[5]"), expected: Ok(Object::Null) },
        VMTestCase { input: String::from("\"Hello\"[-1]"), expected: Ok(Object::String("o".to_string())) },
        VMTestCase { input: String::from("\"Hello\"[1:]"), expected: Ok(Object::String("ello".to_string())) },
        VMTestCase { input: String::from("\"Hello\"[:1]"), expected: Ok(Object::String("H".to_string())) },
        VMTestCase { input: String::from("\"Hello\"[-1:]"), expected: Ok(Object::String("o".to_string())) },
        VMTestCase { input: String::from("\"Hello\"[:-1]"), expected: Ok(Object::String("Hell".to_string())) },
        VMTestCase { input: String::from("\"Hello\"[:]"), expected: Ok(Object::String("Hello".to_string())) },
        VMTestCase { input: String::from("\"Hello\"[1:2]"), expected: Ok(Object::String("e".to_string())) },
        VMTestCase { input: String::from("\"Hello\"[1:3]"), expected: Ok(Object::String("el".to_string())) },
        VMTestCase { input: String::from("\"Hello\"[1:4]"), expected: Ok(Object::String("ell".to_string())) },
        VMTestCase { input: String::from("\"Hello\"[1:5]"), expected: Ok(Object::String("ello".to_string())) },
        VMTestCase { input: String::from("\"Hello\"[1:6]"), expected: Ok(Object::String("ello".to_string())) },
    ];

    run_vm_tests(tests);
}

#[test]
fn test_calling_functions_without_arguments() {
    let tests = vec![
        VMTestCase { input: String::from("let fivePlusTen = fn() { 5 + 10; }; fivePlusTen();"), expected: Ok(Object::Integer(15)) },
        VMTestCase { input: String::from("let one = fn() { 1; }; let two = fn() { 2; }; one() + two()"), expected: Ok(Object::Integer(3)) },
        VMTestCase { input: String::from("let a = fn() { 1 }; let b = fn() { a() + 1 }; let c = fn() { b() + 1 }; c();"), expected: Ok(Object::Integer(3)) },
    ];

    run_vm_tests(tests);
}

#[test]
fn test_functions_with_return_statement() {
    let tests = vec![
        VMTestCase { input: String::from("let earlyExit = fn() { return 99; 100; }; earlyExit();"), expected: Ok(Object::Integer(99)) },
        VMTestCase { input: String::from("let earlyExit = fn() { return 99; return 100; }; earlyExit();"), expected: Ok(Object::Integer(99)) },
    ];

    run_vm_tests(tests);
}

#[test]
fn tests_test_functions_without_return_value() {
    let tests = vec![
        VMTestCase { input: String::from("let noReturn = fn() { }; noReturn();"), expected: Ok(Object::Null) },
        VMTestCase { input: String::from("let noReturn = fn() { }; let noReturnTwo = fn() { noReturn(); }; noReturn(); noReturnTwo();"), expected: Ok(Object::Null) },
    ];

    run_vm_tests(tests);
}

#[test]
fn test_first_class_functions() {
    let tests = vec![
        VMTestCase { input: String::from("let returnsOne = fn() { 1; }; let returnsOneReturner = fn() { returnsOne; }; returnsOneReturner()();"), expected: Ok(Object::Integer(1)) },
        VMTestCase { input: String::from("let returnsOneReturner = fn() { let returnsOne = fn() { 1; }; returnsOne; }; returnsOneReturner()();"), expected: Ok(Object::Integer(1)) },
        VMTestCase { input: String::from(r#"
            let returnsOneReturner = fn() {
                let returnsOne = fn() { 1; };
                returnsOne;
            };
            returnsOneReturner()();
            "#), expected: Ok(Object::Integer(1)) },
    ];

    run_vm_tests(tests);
}

#[test]
fn test_calling_functions_with_bindings() {
    let tests = vec![
        VMTestCase { input: String::from("let one = fn() { let one = 1; one }; one();"), expected: Ok(Object::Integer(1)) },
        VMTestCase { input: String::from("let oneAndTwo = fn() { let one = 1; let two = 2; one + two; }; oneAndTwo();"), expected: Ok(Object::Integer(3)) },
        VMTestCase { input: String::from(r#"
            let oneAndTwo = fn() { let one = 1; let two = 2; one + two; };
            let threeAndFour = fn() { let three = 3; let four = 4; three + four; };
            oneAndTwo() + threeAndFour();
            "#), expected: Ok(Object::Integer(10)) },
        VMTestCase { input: String::from(r#"
            let firstFoobar = fn() { let foobar = 50; foobar; };
            let secondFoobar = fn() { let foobar = 100; foobar; };
            firstFoobar() + secondFoobar();
            "#), expected: Ok(Object::Integer(150)) },
        VMTestCase { input: String::from(r#"
            let globalSeed = 50;
            let minusOne = fn() {
            let num = 1;
            globalSeed - num;
            }
            let minusTwo = fn() {
            let num = 2;
            globalSeed - num;
            }
            minusOne() + minusTwo();
            "#), expected: Ok(Object::Integer(97)) },
    ];

    run_vm_tests(tests);
}

#[test]
fn test_calling_functions_with_arguments_and_bindings() {
    let tests = vec![
        VMTestCase { input: String::from("let identity = fn(a) { a; }; identity(4);"), expected: Ok(Object::Integer(4)) },
        VMTestCase { input: String::from("let sum = fn(a, b) { a + b; }; sum(1, 2);"), expected: Ok(Object::Integer(3)) },
        VMTestCase { input: String::from("let sum = fn(a, b) { let c = a + b; c; }; sum(1, 2);"), expected: Ok(Object::Integer(3)) },
        VMTestCase { input: String::from("let sum = fn(a, b) { let c = a + b; c; }; sum(1, 2) + sum(3, 4);"), expected: Ok(Object::Integer(10)) },
        VMTestCase { input: String::from(r#"
            let sum = fn(a, b) {
                let c = a + b;
                c;
            };
            let outer = fn() {
                sum(1, 2) + sum(3, 4);
            };
            outer();
            "#), expected: Ok(Object::Integer(10)) },
        VMTestCase { input: String::from(r#"
            let globalNum = 10;
            let sum = fn(a, b) {
                let c = a + b;
                c + globalNum;
            };
            let outer = fn() {
                sum(1, 2) + sum(3, 4) + globalNum;
            };
            outer() + globalNum;
            "#), expected: Ok(Object::Integer(50)) },
    ];

    run_vm_tests(tests);
}

#[test]
fn test_calling_functions_with_wrong_arguments() {
    let tests = vec![
        VMTestCase { input: String::from("fn() { 1; }(1);"), expected: Err(String::from("wrong number of arguments: want=0, got=1")) },
        VMTestCase { input: String::from("fn(a) { a; }();"), expected: Err(String::from("wrong number of arguments: want=1, got=0")) },
        VMTestCase { input: String::from("fn(a, b) { a + b; }(1);"), expected: Err(String::from("wrong number of arguments: want=2, got=1")) },
    ];

    run_vm_tests(tests);
}

#[test]
fn tests_test_builtin_functions() {
    let tests = vec![
        VMTestCase { input: String::from(r#"len("")"#), expected: Ok(Object::Integer(0)) },
        VMTestCase { input: String::from(r#"len("four")"#), expected: Ok(Object::Integer(4)) },
        VMTestCase { input: String::from(r#"len("hello world")"#), expected: Ok(Object::Integer(11)) },
        VMTestCase { input: String::from(r#"len(1)"#), expected: Err(String::from("argument to `len` not supported, got INTEGER")) },
        VMTestCase { input: String::from(r#"len("one", "two")"#), expected: Err(String::from("wrong number of arguments. got=2, want=1")) },
        VMTestCase { input: String::from(r#"len([1, 2, 3])"#), expected: Ok(Object::Integer(3)) },
        VMTestCase { input: String::from(r#"len([])"#), expected: Ok(Object::Integer(0)) },
        VMTestCase { input: String::from(r#"puts("hello", "world!")"#), expected: Ok(Object::Null) },
        VMTestCase { input: String::from(r#"first([1, 2, 3])"#), expected: Ok(Object::Integer(1)) },
        VMTestCase { input: String::from(r#"first([])"#), expected: Ok(Object::Null) },
        VMTestCase { input: String::from(r#"first(1)"#), expected: Err(String::from("argument to `first` must be ARRAY, got INTEGER")) },
        VMTestCase { input: String::from(r#"last([1, 2, 3])"#), expected: Ok(Object::Integer(3)) },
        VMTestCase { input: String::from(r#"last([])"#), expected: Ok(Object::Null) },
        VMTestCase { input: String::from(r#"last(1)"#), expected: Err(String::from("argument to `last` must be ARRAY, got INTEGER")) },
        VMTestCase { input: String::from(r#"rest([1, 2, 3])"#), expected: Ok(Object::Array(vec![Object::Integer(2), Object::Integer(3)])) },
        VMTestCase { input: String::from(r#"rest([])"#), expected: Ok(Object::Null) },
        VMTestCase { input: String::from(r#"push([], 1)"#), expected: Ok(Object::Array(vec![Object::Integer(1)])) },
        VMTestCase { input: String::from(r#"push(1, 1)"#), expected: Err(String::from("argument to `push` must be ARRAY, got INTEGER")) },
    ];

    run_vm_tests(tests);
}

#[test]
fn tests_test_closures() {
    let tests = vec![
        VMTestCase { input: String::from(r#"
            let newClosure = fn(a) {
                fn() { a; };
            };
            let closure = newClosure(99);
            closure();
            "#), expected: Ok(Object::Integer(99)) },
        VMTestCase { input: String::from(r#"
            let newAdder = fn(a, b) {
                fn(c) { a + b + c };
            };
            let adder = newAdder(1, 2);
            adder(8);
            "#), expected: Ok(Object::Integer(11)) },
        VMTestCase { input: String::from(r#"
            let newAdder = fn(a, b) {
                let c = a + b;
                fn(d) { c + d };
            };
            let adder = newAdder(1, 2);
            adder(8);
            "#), expected: Ok(Object::Integer(11)) },
        VMTestCase { input: String::from(r#"
            let newAdderOuter = fn(a, b) {
                let c = a + b;
                fn(d) {
                    let e = d + c;
                    fn(f) { e + f; };
                };
            };
            let newAdderInner = newAdderOuter(1, 2)
            let adder = newAdderInner(3);
            adder(8);
            "#), expected: Ok(Object::Integer(14)) },
        VMTestCase { input: String::from(r#"
            let a = 1;
            let newAdderOuter = fn(b) {
                fn(c) {
                    fn(d) { a + b + c + d };
                };
            };
            let newAdderInner = newAdderOuter(2)
            let adder = newAdderInner(3);
            adder(8);
            "#), expected: Ok(Object::Integer(14)) },
        VMTestCase { input: String::from(r#"
            let newClosure = fn(a, b) {
                let one = fn() { a; };
                let two = fn() { b; };
                fn() { one() + two(); };
            };
            let closure = newClosure(9, 90);
            closure();            
            "#), expected: Ok(Object::Integer(99)) },
    ];

    run_vm_tests(tests);
}

#[test]
fn test_recursive_functions() {
    let tests = vec![
        VMTestCase { input: String::from(r#"
            let countDown = fn(x) {
                if (x == 0) {
                    return 0;
                } else {
                    countDown(x - 1);
                }
            };
            countDown(1);
            "#), expected: Ok(Object::Integer(0)) },
        VMTestCase { input: String::from(r#"
            let countDown = fn(x) {
                if (x == 0) {
                    return 0;
                } else {
                    countDown(x - 1);
                }
            };
            let wrapper = fn() {
                countDown(1);
            };
            wrapper();
            "#), expected: Ok(Object::Integer(0)) },
        VMTestCase { input: String::from(r#"
            let wrapper = fn() {
                let countDown = fn(x) {
                    if (x == 0) {
                        return 0;
                    } else {
                        countDown(x - 1);
                    }
                };
                countDown(1);
            };
            wrapper();
            "#), expected: Ok(Object::Integer(0)) },
    ];

    run_vm_tests(tests);
}

#[test]
fn test_recursive_fibonacci() {
    let tests = vec![
        VMTestCase { input: String::from(r#"
            let fibonacci = fn(x) {
                if (x == 0) {
                    return 0;
                } else {
                    if (x == 1) {
                        return 1;
                    } else {
                        fibonacci(x - 1) + fibonacci(x - 2);
                    }
                }
            };
            fibonacci(15);
            "#), expected: Ok(Object::Integer(610)) }
    ];

    run_vm_tests(tests);
}

fn parse(input: String) -> Program {
    let lexer = Lexer::new(input);
    let mut parser = Parser::new(lexer);
    parser.parse_program()
}

fn run_vm_tests(tests: Vec<VMTestCase>) {
    for test in tests {
        let program = parse(test.input);
        let mut compiler = Compiler::new();
        compiler.compile_node(&Node::Program(&program)).unwrap();
        let bytecode = compiler.bytecode();

        // Print disassembled bytecode
        println!("{}", instructions_string(&bytecode.instructions));

        let mut vm = VM::new(bytecode);
        match test.expected {
            Ok(expected) => {
                vm.run().unwrap();
                let stack_elem = vm.last_popped_stack_elem();
                assert_eq!(stack_elem, expected);
            }
            Err(expected) => {
                let err = vm.run().unwrap_err();
                assert_eq!(err.to_string(), expected);
            }
        }
    }
}
