use monkey::compiler::Compiler;
use monkey::eval::environment::Environment;
use monkey::eval::Evaluator;
use monkey::lexer::Lexer;
use monkey::object::{HashKey, Object};
use monkey::parser::ast::{Node, Program};
use monkey::parser::Parser;
use monkey::vm::VM;

fn parse(input: &str) -> Program {
    let lexer = Lexer::new(input.to_string());
    let mut parser = Parser::new(lexer);
    let program = parser.parse_program();
    assert_eq!(parser.errors, Vec::<String>::new(), "{}", input);
    program
}

fn eval(input: &str) -> Result<Object, String> {
    let mut evaluator = Evaluator::default();
    evaluator.eval(&parse(input)).map_err(|e| e.to_string())
}

fn run(input: &str) -> Result<Object, String> {
    let mut compiler = Compiler::new();
    compiler.compile(&parse(input)).map_err(|e| e.to_string())?;
    let mut vm = VM::new(compiler.bytecode());
    vm.run().map_err(|e| e.to_string())?;
    Ok(vm.last_popped_stack_elem())
}

fn ints(values: &[i64]) -> Object {
    Object::Array(values.iter().map(|v| Object::Integer(*v)).collect())
}

#[test]
fn environments_hold_what_was_set() {
    let mut env = Environment::new(Some(3));
    assert_eq!(env.outer, Some(3));
    assert_eq!(env.get(&"a".to_string()), None);
    env.set(&"a".to_string(), Object::Integer(1));
    env.set(&"b".to_string(), Object::Integer(2));
    env.set(&"a".to_string(), Object::Integer(3));
    assert_eq!(env.get(&"a".to_string()), Some(Object::Integer(3)));
    assert_eq!(env.get(&"b".to_string()), Some(Object::Integer(2)));
    assert_eq!(env.values.len(), 2);
    assert_eq!(Environment::default().outer, None);
}

#[test]
fn an_evaluator_starts_in_the_environment_it_is_given() {
    let mut env = Environment::default();
    env.set(&"answer".to_string(), Object::Integer(42));
    let mut evaluator = Evaluator::new(env);
    assert_eq!(evaluator.eval(&parse("answer + 1")), Ok(Object::Integer(43)));
    assert_eq!(
        evaluator.eval_node(Node::Expression(&monkey::parser::ast::Expression::Integer(7)), 0),
        Ok(Object::Integer(7))
    );
}

#[test]
fn bindings_live_on_from_one_program_to_the_next() {
    let mut evaluator = Evaluator::default();
    assert_eq!(evaluator.eval(&parse("let a = 1; let add = fn(x) { x + a };")), Ok(Object::Null));
    assert_eq!(evaluator.eval(&parse("add(41)")), Ok(Object::Integer(42)));
    assert_eq!(evaluator.eval(&parse("let a = 10; add(1)")), Ok(Object::Integer(11)));
    assert_eq!(
        evaluator.eval(&parse("nothing")).unwrap_err().to_string(),
        "identifier not found: nothing"
    );
    assert_eq!(evaluator.eval(&parse("a")), Ok(Object::Integer(10)));
    assert_eq!(evaluator.current, 0);
}

#[test]
fn an_error_inside_a_call_leaves_the_evaluator_where_it_was() {
    let mut evaluator = Evaluator::default();
    assert_eq!(evaluator.eval(&parse("let a = 1; let f = fn(a) { a + true };")), Ok(Object::Null));
    assert_eq!(
        evaluator.eval(&parse("f(5)")).unwrap_err().to_string(),
        "type mismatch: INTEGER + BOOLEAN"
    );
    assert_eq!(evaluator.current, 0);
    assert_eq!(evaluator.eval(&parse("a")), Ok(Object::Integer(1)));
}

#[test]
fn a_function_sees_the_variables_of_where_it_was_made() {
    assert_eq!(
        eval("let a = 1; let f = fn() { a }; let g = fn() { let a = 2; f() }; g()"),
        Ok(Object::Integer(1))
    );
    assert_eq!(
        eval("let f = fn() { later() }; let later = fn() { 5 }; f()"),
        Ok(Object::Integer(5))
    );
    assert_eq!(
        eval("let counter = fn(n) { fn() { n + 1 } }; let c = counter(1); let d = counter(10); c() + d()"),
        Ok(Object::Integer(13))
    );
}

#[test]
fn parameters_and_arguments_are_bound_as_far_as_both_go() {
    assert_eq!(eval("fn(a, b) { a }(1)"), Ok(Object::Integer(1)));
    assert_eq!(eval("fn(a) { a }(1, 2, 3)"), Ok(Object::Integer(1)));
    assert_eq!(eval("fn(a, b) { b }(1)"), Err("identifier not found: b".to_string()));
    assert_eq!(eval("fn(a, a) { a }(1, 2)"), Ok(Object::Integer(2)));
}

#[test]
fn a_return_ends_the_function_it_stands_in() {
    assert_eq!(
        eval("let f = fn() { if (true) { if (true) { return 1; } return 2; } 3 }; f() + 10"),
        Ok(Object::Integer(11))
    );
    assert_eq!(eval("if (true) { return 1; 2 }; 3"), Ok(Object::Integer(1)));
    assert_eq!(eval("let a = fn() { return 7; }(); a"), Ok(Object::Integer(7)));
}

#[test]
fn evaluation_errors() {
    assert_eq!(eval("5 / 0"), Err("division by zero".to_string()));
    assert_eq!(eval("1(2)"), Err("not a function: INTEGER".to_string()));
    assert_eq!(eval("\"f\"()"), Err("not a function: STRING".to_string()));
    assert_eq!(eval("{[1]: 1}"), Err("unusable as hash key: ARRAY".to_string()));
    assert_eq!(eval("{1: 1}[[1]]"), Err("unusable as hash key: ARRAY".to_string()));
    assert_eq!(
        eval("[1][true]"),
        Err("index operator not supported: ARRAY[BOOLEAN]".to_string())
    );
    assert_eq!(
        eval("1[0]"),
        Err("index operator not supported: INTEGER[INTEGER]".to_string())
    );
    assert_eq!(eval("1[0:1]"), Err("slice operator not supported: INTEGER".to_string()));
    assert_eq!(eval("[1][true:]"), Err("slice start must be an integer".to_string()));
    assert_eq!(eval("[1][:\"a\"]"), Err("slice stop must be an integer".to_string()));
    assert_eq!(eval("-\"a\""), Err("unknown operator: -STRING".to_string()));
    assert_eq!(
        eval("true < false"),
        Err("unknown operator: BOOLEAN < BOOLEAN".to_string())
    );
    assert_eq!(
        eval("[1] + [2]"),
        Err("unknown operator: ARRAY + ARRAY".to_string())
    );
    assert_eq!(eval("1 + \"a\""), Err("type mismatch: INTEGER + STRING".to_string()));
    assert_eq!(
        eval("\"a\" == 1"),
        Err("type mismatch: STRING == INTEGER".to_string())
    );
    assert_eq!(
        eval("\"a\" * \"b\""),
        Err("unknown operator: STRING * STRING".to_string())
    );
    assert_eq!(
        eval("(if (true) { return 1; }) + 2"),
        Err("type mismatch: RETURN_VALUE + INTEGER".to_string())
    );
    assert_eq!(
        eval("[1, nothing, 3]"),
        Err("identifier not found: nothing".to_string())
    );
    assert_eq!(
        eval("len(1, nothing)"),
        Err("identifier not found: nothing".to_string())
    );
}

#[test]
fn hashes_in_the_evaluator() {
    assert_eq!(
        eval("{\"b\": 1, \"a\": 2, \"b\": 3}"),
        Ok(Object::Hash(vec![
            (HashKey::String("b".to_string()), Object::Integer(3)),
            (HashKey::String("a".to_string()), Object::Integer(2)),
        ]))
    );
    assert_eq!(eval("{1: 2, true: 3, \"a\": 4}[\"a\"]"), Ok(Object::Integer(4)));
    assert_eq!(eval("{1: 2}[2]"), Ok(Object::Null));
    assert_eq!(eval("let k = \"x\"; {k: k + k}[\"x\"]"), Ok(Object::String("xx".to_string())));
}

#[test]
fn puts_collects_its_lines_in_the_evaluator() {
    let mut evaluator = Evaluator::default();
    assert_eq!(
        evaluator.eval(&parse("puts(1, \"two\"); let f = fn() { puts([3]) }; f(); 4")),
        Ok(Object::Integer(4))
    );
    assert_eq!(evaluator.take_output(), vec!["1", "two", "[3]"]);
    assert_eq!(evaluator.take_output(), Vec::<String>::new());
}

#[test]
fn calls_inside_one_another_by_the_thousand() {
    assert_eq!(
        eval("let down = fn(x) { if (x == 0) { 0 } else { 1 + down(x - 1) } }; down(20000)"),
        Ok(Object::Integer(20000))
    );
}

#[test]
fn calls_are_counted_against_the_fuel() {
    let program = parse("let f = fn(x) { if (x == 0) { 0 } else { f(x - 1) } }; f(3)");
    let mut evaluator = Evaluator::default();
    assert_eq!(
        evaluator
            .eval_node(Node::Program(&program), 3)
            .unwrap_err()
            .to_string(),
        "call depth exceeded"
    );
    let mut evaluator = Evaluator::default();
    assert_eq!(
        evaluator.eval_node(Node::Program(&program), 4),
        Ok(Object::Integer(0))
    );
}

#[test]
fn the_evaluator_and_the_machine_agree() {
    for input in [
        "50 / 2 * 2 + 10 - 5",
        "-7 / 2",
        "9223372036854775807 + 1",
        "(5 + 10 * 2 + 15 / 3) * 2 + -10",
        "1 < 2 == true",
        "!(1 > 2)",
        "!!5",
        "if (1 > 2) { 10 }",
        "if ((if (false) { 10 })) { 10 } else { 20 }",
        "let one = 1; let two = one + one; one + two",
        "\"mon\" + \"key\" + \"banana\"",
        "[1, 2 * 2, 3 + 3]",
        "[1, 2, 3][1]",
        "[1, 2, 3][-1]",
        "[1, 2, 3][5]",
        "[1, 2, 3][1:]",
        "[1, 2, 3][-5:2]",
        "[1, 2, 3][2:1]",
        "\"Hello\"[-1]",
        "\"Hello\"[1:3]",
        "\"héllo\"[1]",
        "\"héllo\"[1:3]",
        "{1: 2, 3: 4}[3]",
        "{1: 2, 3: 4}[5]",
        "{\"a\": [1, 2]}[\"a\"][1]",
        "len(\"héllo\") + len([1, 2])",
        "first(rest(push([1, 2], 3)))",
        "last([])",
        "let newAdder = fn(a, b) { fn(c) { a + b + c } }; newAdder(1, 2)(8)",
        "let fib = fn(x) { if (x == 0) { 0 } else { if (x == 1) { 1 } else { fib(x-1) + fib(x-2) } } }; fib(15)",
        "let f = fn(x) { if (x) { return 1; } 2 }; [f(true), f(false)]",
        "let apply = fn(f, x) { f(f(x)) }; apply(fn(x) { x * 3 }, 2)",
        "let a = [1, 2, 3]; let b = push(a, 4); [len(a), len(b)]",
        "5 / 0",
        "{[1]: 2}",
        "[1][true:]",
        "len(1)",
        "push(1, 1)",
    ] {
        let evaluated = eval(input);
        let ran = run(input);
        match (&evaluated, &ran) {
            (Ok(a), Ok(b)) => assert_eq!(a, b, "{}", input),
            (Err(_), Err(_)) => {}
            _ => panic!("{}: {:?} and {:?}", input, evaluated, ran),
        }
    }
    assert_eq!(eval("[1, 2, 3][-5:2]"), Ok(ints(&[1, 2])));
}
