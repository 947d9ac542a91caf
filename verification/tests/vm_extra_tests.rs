use monkey::code::{make, Instructions, Opcode};
use monkey::compiler::{Bytecode, Compiler};
use monkey::lexer::Lexer;
use monkey::object::{HashKey, Object};
use monkey::parser::Parser;
use monkey::vm::machine::{GLOBALS_SIZE, STACK_SIZE};
use monkey::vm::VM;

fn compile(input: &str) -> Bytecode {
    let lexer = Lexer::new(input.to_string());
    let mut parser = Parser::new(lexer);
    let program = parser.parse_program();
    assert_eq!(parser.errors, Vec::<String>::new(), "{}", input);
    let mut compiler = Compiler::new();
    compiler.compile(&program).unwrap();
    compiler.bytecode()
}

fn run(input: &str) -> Result<Object, String> {
    let mut vm = VM::new(compile(input));
    match vm.run() {
        Ok(()) => Ok(vm.last_popped_stack_elem()),
        Err(e) => Err(e.to_string()),
    }
}

fn run_bytes(instructions: Vec<Instructions>, constants: Vec<Object>) -> Result<Object, String> {
    let mut vm = VM::new(Bytecode {
        instructions: instructions.into_iter().flatten().collect(),
        constants,
    });
    match vm.run() {
        Ok(()) => Ok(vm.last_popped_stack_elem()),
        Err(e) => Err(e.to_string()),
    }
}

fn error(input: &str) -> String {
    run(input).unwrap_err()
}

fn ints(values: &[i64]) -> Object {
    Object::Array(values.iter().map(|v| Object::Integer(*v)).collect())
}

fn text(s: &str) -> Object {
    Object::String(s.to_string())
}

#[test]
fn arithmetic_goes_from_left_to_right_by_precedence() {
    assert_eq!(run("50 / 2 * 2 + 10 - 5"), Ok(Object::Integer(55)));
    assert_eq!(run("-7 / 2"), Ok(Object::Integer(-3)));
    assert_eq!(run("7 / -2"), Ok(Object::Integer(-3)));
}

#[test]
fn a_conditional_without_a_value_is_null() {
    assert_eq!(run("if (1 > 2) { 10 }"), Ok(Object::Null));
    assert_eq!(
        run("if ((if (false) { 10 })) { 10 } else { 20 }"),
        Ok(Object::Integer(20))
    );
}

#[test]
fn globals_are_read_back() {
    assert_eq!(
        run("let one = 1; let two = one + one; one + two"),
        Ok(Object::Integer(3))
    );
}

#[test]
fn strings_are_joined() {
    assert_eq!(run("\"mon\" + \"key\" + \"banana\""), Ok(text("monkeybanana")));
}

#[test]
fn a_closure_keeps_what_it_captured() {
    assert_eq!(
        run("let newAdder = fn(a, b) { fn(c) { a + b + c } }; newAdder(1, 2)(8)"),
        Ok(Object::Integer(11))
    );
}

#[test]
fn a_function_calls_itself() {
    assert_eq!(
        run("let fib = fn(x) { if (x == 0) { 0 } else { if (x == 1) { 1 } else { fib(x-1) + fib(x-2) } } }; fib(15)"),
        Ok(Object::Integer(610))
    );
}

#[test]
fn a_call_with_the_wrong_number_of_arguments_is_an_error() {
    assert_eq!(error("fn(a) { a; }()"), "wrong number of arguments: want=1, got=0");
    assert_eq!(
        error("fn(a) { a; }(1, 2, 3)"),
        "wrong number of arguments: want=1, got=3"
    );
}

#[test]
fn slices_and_negative_indices() {
    assert_eq!(run("[1,2,3][1:]"), Ok(ints(&[2, 3])));
    assert_eq!(run("\"Hello\"[-1]"), Ok(text("o")));
}

#[test]
fn slice_bounds_are_counted_from_the_end_and_cut_to_the_range() {
    assert_eq!(run("[1, 2, 3][-5:2]"), Ok(ints(&[1, 2])));
    assert_eq!(run("[1, 2, 3][-2:-1]"), Ok(ints(&[2])));
    assert_eq!(run("[1, 2, 3][2:1]"), Ok(ints(&[])));
    assert_eq!(run("[1, 2, 3][1:100]"), Ok(ints(&[2, 3])));
    assert_eq!(run("[1, 2, 3][-100:100]"), Ok(ints(&[1, 2, 3])));
    assert_eq!(run("[][:]"), Ok(ints(&[])));
    assert_eq!(run("\"Hello\"[-3:-1]"), Ok(text("ll")));
    assert_eq!(run("\"Hello\"[3:1]"), Ok(text("")));
    assert_eq!(run("\"Hello\"[-100:2]"), Ok(text("He")));
    assert_eq!(
        run("[1, 2, 3][(if (false) { 1 }):(if (false) { 1 })]"),
        Ok(ints(&[1, 2, 3]))
    );
}

#[test]
fn strings_are_indexed_by_byte() {
    assert_eq!(run("len(\"héllo\")"), Ok(Object::Integer(6)));
    assert_eq!(run("\"héllo\"[0]"), Ok(text("h")));
    assert_eq!(run("\"héllo\"[1]"), Ok(Object::Null));
    assert_eq!(run("\"héllo\"[2]"), Ok(Object::Null));
    assert_eq!(run("\"héllo\"[3]"), Ok(text("l")));
    assert_eq!(run("\"héllo\"[-1]"), Ok(text("o")));
    assert_eq!(run("\"héllo\"[6]"), Ok(Object::Null));
    assert_eq!(run("\"héllo\"[-7]"), Ok(Object::Null));
    assert_eq!(run("\"héllo\"[1:3]"), Ok(text("é")));
    assert_eq!(run("\"héllo\"[1:2]"), Ok(text("")));
    assert_eq!(run("\"héllo\"[2:]"), Ok(text("")));
    assert_eq!(run("\"héllo\"[3:]"), Ok(text("llo")));
}

#[test]
fn array_indices_outside_the_array_give_null() {
    assert_eq!(run("[1, 2, 3][-3]"), Ok(Object::Integer(1)));
    assert_eq!(run("[1, 2, 3][-4]"), Ok(Object::Null));
    assert_eq!(run("[1, 2, 3][3]"), Ok(Object::Null));
    assert_eq!(run("[1, 2, 3][9223372036854775807]"), Ok(Object::Null));
    assert_eq!(run("[1, 2, 3][-9223372036854775807]"), Ok(Object::Null));
}

#[test]
fn hashes_hold_one_value_for_each_key() {
    assert_eq!(
        run("{\"a\": 1, \"b\": 2, \"a\": 3}"),
        Ok(Object::Hash(vec![
            (HashKey::String("a".to_string()), Object::Integer(3)),
            (HashKey::String("b".to_string()), Object::Integer(2)),
        ]))
    );
    assert_eq!(run("{\"a\": 1, true: 2, 3: 4}[true]"), Ok(Object::Integer(2)));
    assert_eq!(run("{\"a\": 1, true: 2, 3: 4}[\"a\"]"), Ok(Object::Integer(1)));
    assert_eq!(run("{\"a\": 1, true: 2, 3: 4}[3]"), Ok(Object::Integer(4)));
    assert_eq!(run("{\"a\": 1}[\"b\"]"), Ok(Object::Null));
    assert_eq!(run("{1: 1}[true]"), Ok(Object::Null));
}

#[test]
fn integers_wrap_around() {
    assert_eq!(run("9223372036854775807 + 1"), Ok(Object::Integer(i64::MIN)));
    assert_eq!(run("-9223372036854775807 - 2"), Ok(Object::Integer(i64::MAX)));
    assert_eq!(run("9223372036854775807 * 2"), Ok(Object::Integer(-2)));
    assert_eq!(
        run("(-9223372036854775807 - 1) / -1"),
        Ok(Object::Integer(i64::MIN))
    );
    assert_eq!(run("-(-9223372036854775807 - 1)"), Ok(Object::Integer(i64::MIN)));
}

#[test]
fn operands_of_the_wrong_type_are_errors() {
    assert_eq!(
        error("5 + true"),
        "unsupported types for binary operation: INTEGER BOOLEAN"
    );
    assert_eq!(
        error("\"a\" + 1"),
        "unsupported types for binary operation: STRING INTEGER"
    );
    assert_eq!(
        error("[1] * [2]"),
        "unsupported types for binary operation: ARRAY ARRAY"
    );
    assert_eq!(error("\"a\" - \"b\""), "unknown string operator: OpSub");
    assert_eq!(error("\"a\" * \"b\""), "unknown string operator: OpMul");
    assert_eq!(error("true > false"), "unknown boolean operator: OpGreaterThan");
    assert_eq!(error("true < false"), "unknown boolean operator: OpGreaterThan");
    assert_eq!(
        error("1 == true"),
        "unsupported types for comparison: INTEGER BOOLEAN"
    );
    assert_eq!(
        error("\"a\" == \"a\""),
        "unsupported types for comparison: STRING STRING"
    );
    assert_eq!(error("-true"), "unsupported type for negation: true");
    assert_eq!(error("-\"abc\""), "unsupported type for negation: abc");
    assert_eq!(error("-[1, 2]"), "unsupported type for negation: [1, 2]");
    assert_eq!(error("5 / 0"), "division by zero");
}

#[test]
fn bang_makes_a_boolean_of_everything() {
    assert_eq!(run("!0"), Ok(Object::Boolean(false)));
    assert_eq!(run("!\"\""), Ok(Object::Boolean(false)));
    assert_eq!(run("![]"), Ok(Object::Boolean(false)));
    assert_eq!(run("!(if (false) { 1 })"), Ok(Object::Boolean(true)));
    assert_eq!(run("!!(if (false) { 1 })"), Ok(Object::Boolean(false)));
}

#[test]
fn keys_and_indices_of_the_wrong_type_are_errors() {
    assert_eq!(error("{[1]: 2}"), "unusable as hash key: ARRAY");
    assert_eq!(error("{fn() { 1 }: 2}"), "unusable as hash key: CLOSURE");
    assert_eq!(error("{1: 2}[[1]]"), "unusable as hash key: ARRAY");
    assert_eq!(error("{1: 2}[{}]"), "unusable as hash key: HASH");
    assert_eq!(error("1[0]"), "index operator not supported: INTEGER[INTEGER]");
    assert_eq!(error("[1][true]"), "index operator not supported: ARRAY[BOOLEAN]");
    assert_eq!(error("\"a\"[\"b\"]"), "index operator not supported: STRING[STRING]");
    assert_eq!(
        error("1[0:1]"),
        "slice index operator not supported: INTEGER[INTEGER:INTEGER]"
    );
    assert_eq!(
        error("{}[:]"),
        "slice index operator not supported: HASH[NULL:NULL]"
    );
    assert_eq!(error("[1][true:]"), "slice start must be an integer");
    assert_eq!(error("[1][:\"a\"]"), "slice stop must be an integer");
    assert_eq!(error("[1][true:\"a\"]"), "slice start must be an integer");
    assert_eq!(error("\"abc\"[[]:]"), "slice start must be an integer");
    assert_eq!(error("\"abc\"[0:{}]"), "slice stop must be an integer");
}

#[test]
fn only_closures_and_built_in_functions_can_be_called() {
    assert_eq!(error("1()"), "calling non-closure and non-builtin");
    assert_eq!(error("\"f\"(1, 2)"), "calling non-closure and non-builtin");
    assert_eq!(error("[len][0](1, 2)"), "wrong number of arguments. got=2, want=1");
    assert_eq!(run("[len][0]([1, 2])"), Ok(Object::Integer(2)));
}

#[test]
fn a_return_outside_of_a_function_is_an_error() {
    assert_eq!(error("return 5;"), "frame underflow");
    assert_eq!(error("1; return 2; 3"), "frame underflow");
}

#[test]
fn calls_without_end_run_out_of_frames() {
    assert_eq!(error("let f = fn() { f() }; f()"), "frame overflow");
}

#[test]
fn calls_with_many_locals_run_out_of_stack() {
    assert_eq!(
        error("let f = fn(a, b, c, d, e, g, h, i) { f(a, b, c, d, e, g, h, i) }; f(1, 2, 3, 4, 5, 6, 7, 8)"),
        "stack overflow"
    );
}

#[test]
fn the_stack_holds_no_more_than_its_size() {
    let elements = vec!["1"; STACK_SIZE].join(", ");
    assert_eq!(
        run(&format!("len([{}])", elements)),
        Err("stack overflow".to_string())
    );
    let elements = vec!["1"; STACK_SIZE - 1].join(", ");
    assert_eq!(
        run(&format!("len([{}])", elements)),
        Ok(Object::Integer(STACK_SIZE as i64 - 1))
    );
    let mut pushes = vec![make(Opcode::OpTrue, vec![]); STACK_SIZE];
    assert_eq!(run_bytes(pushes.clone(), vec![]), Ok(Object::Null));
    pushes.push(make(Opcode::OpTrue, vec![]));
    assert_eq!(run_bytes(pushes, vec![]), Err("stack overflow".to_string()));
}

#[test]
fn a_failed_push_leaves_the_stack_as_it_was() {
    let mut vm = VM::default();
    for i in 0..STACK_SIZE {
        assert_eq!(vm.push(Object::Integer(i as i64)), Ok(()));
    }
    let before = vm.stack.clone();
    assert_eq!(
        vm.push(Object::Null).unwrap_err().to_string(),
        "stack overflow"
    );
    assert_eq!(vm.stack, before);
    assert_eq!(vm.sp, STACK_SIZE);
    assert_eq!(vm.last_popped_stack_elem(), Object::Null);
    assert_eq!(vm.stack_top(), Object::Integer(STACK_SIZE as i64 - 1));
    assert_eq!(vm.pop(), Ok(Object::Integer(STACK_SIZE as i64 - 1)));
    assert_eq!(
        vm.last_popped_stack_elem(),
        Object::Integer(STACK_SIZE as i64 - 1)
    );
}

#[test]
fn bytes_that_are_no_program_are_errors() {
    assert_eq!(run_bytes(vec![vec![200]], vec![]), Err("Invalid opcode: 200".to_string()));
    assert_eq!(
        run_bytes(vec![vec![0, 0]], vec![]),
        Err("truncated instruction".to_string())
    );
    assert_eq!(
        run_bytes(vec![vec![28, 0, 0]], vec![]),
        Err("truncated instruction".to_string())
    );
    assert_eq!(
        run_bytes(vec![make(Opcode::OpConstant, vec![5])], vec![Object::Null]),
        Err("constant index out of range".to_string())
    );
    assert_eq!(
        run_bytes(vec![make(Opcode::OpPop, vec![])], vec![]),
        Err("stack underflow".to_string())
    );
    assert_eq!(
        run_bytes(
            vec![make(Opcode::OpTrue, vec![]), make(Opcode::OpAdd, vec![])],
            vec![]
        ),
        Err("stack underflow".to_string())
    );
    assert_eq!(
        run_bytes(vec![make(Opcode::OpArray, vec![1])], vec![]),
        Err("stack underflow".to_string())
    );
    assert_eq!(
        run_bytes(vec![make(Opcode::OpCall, vec![0])], vec![]),
        Err("stack underflow".to_string())
    );
    assert_eq!(
        run_bytes(vec![make(Opcode::OpGetBuiltin, vec![9])], vec![]),
        Err("builtin not found: 9".to_string())
    );
    assert_eq!(
        run_bytes(vec![make(Opcode::OpClosure, vec![0, 0])], vec![Object::Integer(1)]),
        Err("not a function: INTEGER".to_string())
    );
    assert_eq!(
        run_bytes(vec![make(Opcode::OpClosure, vec![3, 0])], vec![]),
        Err("constant index out of range".to_string())
    );
    assert_eq!(
        run_bytes(vec![make(Opcode::OpGetFree, vec![0])], vec![]),
        Err("free variable index out of range".to_string())
    );
    assert_eq!(
        run_bytes(vec![make(Opcode::OpReturn, vec![])], vec![]),
        Err("frame underflow".to_string())
    );
    assert_eq!(
        run_bytes(
            vec![
                make(Opcode::OpTrue, vec![]),
                make(Opcode::OpTrue, vec![]),
                make(Opcode::OpSub, vec![])
            ],
            vec![]
        ),
        Err("unsupported types for binary operation: BOOLEAN BOOLEAN".to_string())
    );
}

#[test]
fn a_hash_instruction_drops_a_value_without_a_partner() {
    assert_eq!(
        run_bytes(
            vec![
                make(Opcode::OpConstant, vec![0]),
                make(Opcode::OpConstant, vec![1]),
                make(Opcode::OpConstant, vec![0]),
                make(Opcode::OpHash, vec![3]),
                make(Opcode::OpPop, vec![]),
            ],
            vec![Object::Integer(1), Object::Integer(2)]
        ),
        Ok(Object::Hash(vec![(HashKey::Integer(1), Object::Integer(2))]))
    );
}

#[test]
fn a_jump_goes_where_its_operand_says() {
    assert_eq!(
        run_bytes(
            vec![
                make(Opcode::OpJump, vec![4]),
                make(Opcode::OpTrue, vec![]),
                make(Opcode::OpFalse, vec![]),
                make(Opcode::OpPop, vec![]),
            ],
            vec![]
        ),
        Ok(Object::Boolean(false))
    );
    assert_eq!(
        run_bytes(vec![make(Opcode::OpJump, vec![1000])], vec![]),
        Ok(Object::Null)
    );
}

#[test]
fn a_run_can_be_given_up_after_a_number_of_steps() {
    let mut vm = VM::new(Bytecode {
        instructions: make(Opcode::OpJump, vec![0]),
        constants: vec![],
    });
    assert_eq!(
        vm.run_bounded(1000).unwrap_err().to_string(),
        "step limit exceeded"
    );
    let mut vm = VM::new(compile("1 + 2"));
    assert_eq!(
        vm.run_bounded(3).unwrap_err().to_string(),
        "step limit exceeded"
    );
    let mut vm = VM::new(compile("1 + 2"));
    assert_eq!(vm.run_bounded(4), Ok(()));
    assert_eq!(vm.last_popped_stack_elem(), Object::Integer(3));
}

#[test]
fn instructions_run_one_at_a_time() {
    let mut vm = VM::new(compile("1 + 2"));
    assert!(!vm.halted());
    assert_eq!(vm.step(), Ok(()));
    assert_eq!(vm.stack_top(), Object::Integer(1));
    assert_eq!(vm.current_frame().ip, 3);
    assert_eq!(vm.step(), Ok(()));
    assert_eq!(vm.stack_top(), Object::Integer(2));
    assert_eq!(vm.step(), Ok(()));
    assert_eq!(vm.stack_top(), Object::Integer(3));
    assert_eq!(vm.sp, 1);
    assert_eq!(vm.step(), Ok(()));
    assert_eq!(vm.sp, 0);
    assert!(vm.halted());
}

#[test]
fn a_machine_without_a_program_has_nothing_to_run() {
    let mut vm = VM::default();
    assert!(vm.halted());
    assert_eq!(vm.run(), Ok(()));
    assert_eq!(vm.stack.len(), STACK_SIZE);
    assert_eq!(vm.globals.len(), GLOBALS_SIZE);
    assert_eq!(vm.stack_top(), Object::Null);
    assert_eq!(vm.last_popped_stack_elem(), Object::Null);
    assert_eq!(vm.pop().unwrap_err().to_string(), "stack underflow");
    assert_eq!(vm.pop_frame().unwrap_err().to_string(), "frame underflow");
}

#[test]
fn storing_a_global_clears_the_slot_it_came_from() {
    let mut vm = VM::new(compile("let a = 5;"));
    assert_eq!(vm.run(), Ok(()));
    assert_eq!(vm.last_popped_stack_elem(), Object::Null);
    assert_eq!(vm.globals[0], Object::Integer(5));
    assert_eq!(
        run("let f = fn() { let a = 5; a }; f()"),
        Ok(Object::Integer(5))
    );
}

#[test]
fn globals_live_on_from_one_program_to_the_next() {
    let mut compiler = Compiler::new();
    let mut vm = VM::default();
    for (input, expected) in [
        ("let a = 1; let add = fn(x) { x + a };", Object::Null),
        ("add(41)", Object::Integer(42)),
        ("let a = 10; add(1)", Object::Integer(2)),
        ("a", Object::Integer(10)),
    ] {
        let lexer = Lexer::new(input.to_string());
        let mut parser = Parser::new(lexer);
        let program = parser.parse_program();
        compiler.compile(&program).unwrap();
        let bytecode = compiler.bytecode();
        compiler.reset();
        vm.reset(bytecode);
        assert_eq!(vm.run(), Ok(()));
        assert_eq!(vm.last_popped_stack_elem(), expected, "{}", input);
    }
}

#[test]
fn puts_collects_its_lines() {
    let mut vm = VM::new(compile("puts(\"hello\", 1 + 1); puts(); puts([1, \"a\"], {1: 2})"));
    assert_eq!(vm.run(), Ok(()));
    assert_eq!(vm.last_popped_stack_elem(), Object::Null);
    assert_eq!(vm.output, vec!["hello", "2", "[1, a]", "{1: 2}"]);
    assert_eq!(vm.take_output(), vec!["hello", "2", "[1, a]", "{1: 2}"]);
    assert_eq!(vm.output, Vec::<String>::new());
}

#[test]
fn a_closure_holds_as_many_values_as_it_captured() {
    for (input, count) in [
        ("fn() { 1 }", 0),
        ("let f = fn(a, b) { fn() { a + b } }; f(1, 2)", 2),
        ("let f = fn(a, b, c) { fn() { c } }; f(1, 2, 3)", 1),
        ("let f = fn(a) { let b = a; fn(c) { fn() { a + b + c } } }; f(1)(2)", 3),
    ] {
        match run(input).unwrap() {
            Object::Closure(closure) => assert_eq!(closure.free.len(), count, "{}", input),
            other => panic!("not a closure: {:?}", other),
        }
    }
    assert_eq!(
        run_bytes(
            vec![
                make(Opcode::OpTrue, vec![]),
                make(Opcode::OpFalse, vec![]),
                make(Opcode::OpNull, vec![]),
                make(Opcode::OpClosure, vec![0, 2]),
                make(Opcode::OpPop, vec![]),
            ],
            vec![compile("fn() { 1 }").constants[1].clone()]
        )
        .map(|object| match object {
            Object::Closure(closure) => closure.free,
            _ => vec![],
        }),
        Ok(vec![Object::Boolean(false), Object::Null])
    );
}
