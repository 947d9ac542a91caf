use monkey::error::RuntimeError;
use monkey::object::builtins::{first, get_builtin, last, len, push, puts, rest};
use monkey::object::{hash_get, hash_insert, Builtin, Closure, CompiledFunction, HashKey, Object};
use monkey::parser::ast::{Expression, Statement};

fn integer(i: i64) -> Object {
    Object::Integer(i)
}

fn ints(values: &[i64]) -> Object {
    Object::Array(values.iter().map(|v| Object::Integer(*v)).collect())
}

fn message(r: Result<Object, RuntimeError>) -> String {
    r.unwrap_err().to_string()
}

#[test]
fn only_false_and_null_are_not_truthy() {
    assert!(!Object::Boolean(false).is_truthy());
    assert!(!Object::Null.is_truthy());
    assert!(Object::Boolean(true).is_truthy());
    assert!(integer(0).is_truthy());
    assert!(Object::String(String::new()).is_truthy());
    assert!(ints(&[]).is_truthy());
    assert!(Object::Hash(vec![]).is_truthy());
}

#[test]
fn names_of_the_types() {
    assert_eq!(integer(1).kind_name(), "INTEGER");
    assert_eq!(Object::Boolean(true).kind_name(), "BOOLEAN");
    assert_eq!(Object::String("s".to_string()).kind_name(), "STRING");
    assert_eq!(ints(&[]).kind_name(), "ARRAY");
    assert_eq!(Object::Hash(vec![]).kind_name(), "HASH");
    assert_eq!(Object::ReturnValue(Box::new(integer(1))).kind_name(), "RETURN_VALUE");
    assert_eq!(
        Object::Function(vec![], Box::new(Statement::Block(vec![])), 0).kind_name(),
        "FUNCTION"
    );
    assert_eq!(Object::BuiltInFunction(Builtin::Len).kind_name(), "BUILTIN");
    let func = CompiledFunction {
        instructions: vec![],
        num_locals: 0,
        num_parameters: 0,
    };
    assert_eq!(Object::CompiledFunction(func.clone()).kind_name(), "COMPILED_FUNCTION");
    assert_eq!(Object::Closure(Closure { func, free: vec![] }).kind_name(), "CLOSURE");
    assert_eq!(Object::Null.kind_name(), "NULL");
}

#[test]
fn printed_forms_of_values() {
    assert_eq!(integer(-7).to_string(), "-7");
    assert_eq!(Object::Boolean(true).to_string(), "true");
    assert_eq!(Object::String("a b".to_string()).to_string(), "a b");
    assert_eq!(Object::Null.to_string(), "null");
    assert_eq!(ints(&[1, 2, 3]).to_string(), "[1, 2, 3]");
    assert_eq!(ints(&[]).to_string(), "[]");
    assert_eq!(
        Object::Hash(vec![
            (HashKey::Integer(1), Object::String("one".to_string())),
            (HashKey::String("k".to_string()), ints(&[2])),
            (HashKey::Boolean(false), Object::Null),
        ])
        .to_string(),
        "{1: one, k: [2], false: null}"
    );
    assert_eq!(Object::ReturnValue(Box::new(integer(5))).to_string(), "5");
    assert_eq!(Object::BuiltInFunction(Builtin::Puts).to_string(), "builtin function");
    assert_eq!(
        Object::Function(
            vec!["x".to_string(), "y".to_string()],
            Box::new(Statement::Block(vec![Statement::Expression(
                Expression::Identifier("x".to_string())
            )])),
            0
        )
        .to_string(),
        "fn(x, y) {\nx\n}"
    );
}

#[test]
fn a_copy_of_a_value_is_equal_to_it() {
    let value = Object::Array(vec![
        integer(1),
        Object::Hash(vec![(HashKey::String("k".to_string()), ints(&[2, 3]))]),
        Object::Closure(Closure {
            func: CompiledFunction {
                instructions: vec![1, 2, 3],
                num_locals: 2,
                num_parameters: 1,
            },
            free: vec![Object::String("free".to_string())],
        }),
        Object::ReturnValue(Box::new(Object::Null)),
    ]);
    assert_eq!(value.clone(), value);
}

#[test]
fn keys_come_from_integers_booleans_and_strings() {
    assert_eq!(HashKey::from_object(&integer(3)), Some(HashKey::Integer(3)));
    assert_eq!(HashKey::from_object(&Object::Boolean(true)), Some(HashKey::Boolean(true)));
    assert_eq!(
        HashKey::from_object(&Object::String("s".to_string())),
        Some(HashKey::String("s".to_string()))
    );
    assert_eq!(HashKey::from_object(&Object::Null), None);
    assert_eq!(HashKey::from_object(&ints(&[1])), None);
    assert_eq!(HashKey::Integer(3).into_object(), integer(3));
    assert_eq!(HashKey::String("s".to_string()).to_string(), "s");
    assert!(HashKey::Integer(1).same(&HashKey::Integer(1)));
    assert!(!HashKey::Integer(1).same(&HashKey::Boolean(true)));
    assert!(!HashKey::String("1".to_string()).same(&HashKey::Integer(1)));
}

#[test]
fn a_hash_answers_with_the_value_last_stored_under_a_key() {
    let mut entries = vec![];
    hash_insert(&mut entries, HashKey::Integer(1), integer(10));
    hash_insert(&mut entries, HashKey::String("a".to_string()), integer(20));
    hash_insert(&mut entries, HashKey::Boolean(true), integer(30));
    assert_eq!(hash_get(&entries, &HashKey::Integer(1)), Some(integer(10)));
    assert_eq!(hash_get(&entries, &HashKey::Integer(2)), None);
    hash_insert(&mut entries, HashKey::Integer(1), integer(11));
    assert_eq!(hash_get(&entries, &HashKey::Integer(1)), Some(integer(11)));
    assert_eq!(hash_get(&entries, &HashKey::String("a".to_string())), Some(integer(20)));
    assert_eq!(hash_get(&entries, &HashKey::Boolean(true)), Some(integer(30)));
    assert_eq!(
        entries,
        vec![
            (HashKey::Integer(1), integer(11)),
            (HashKey::String("a".to_string()), integer(20)),
            (HashKey::Boolean(true), integer(30)),
        ]
    );
}

#[test]
fn the_table_of_built_in_functions() {
    let names = ["len", "puts", "first", "last", "rest", "push"];
    for (i, name) in names.iter().enumerate() {
        let builtin = Builtin::from_index(i).unwrap();
        assert_eq!(builtin.to_index(), i);
        assert_eq!(builtin.name_str(), *name);
        assert_eq!(get_builtin(&name.to_string()), Some(builtin));
    }
    assert_eq!(Builtin::from_index(6), None);
    assert_eq!(get_builtin(&"length".to_string()), None);
}

#[test]
fn len_counts_bytes_and_elements() {
    assert_eq!(len(vec![Object::String("héllo".to_string())]), Ok(integer(6)));
    assert_eq!(len(vec![ints(&[1, 2])]), Ok(integer(2)));
    assert_eq!(message(len(vec![])), "wrong number of arguments. got=0, want=1");
    assert_eq!(
        message(len(vec![Object::Null])),
        "argument to `len` not supported, got NULL"
    );
}

#[test]
fn the_array_functions_take_arrays_only() {
    assert_eq!(
        message(first(vec![Object::String("s".to_string())])),
        "argument to `first` must be ARRAY, got STRING"
    );
    assert_eq!(
        message(last(vec![Object::Null])),
        "argument to `last` must be ARRAY, got NULL"
    );
    assert_eq!(
        message(rest(vec![integer(1)])),
        "argument to `rest` must be ARRAY, got INTEGER"
    );
    assert_eq!(
        message(push(vec![Object::Boolean(true), integer(1)])),
        "argument to `push` must be ARRAY, got BOOLEAN"
    );
    assert_eq!(message(first(vec![])), "wrong number of arguments. got=0, want=1");
    assert_eq!(
        message(last(vec![ints(&[]), ints(&[])])),
        "wrong number of arguments. got=2, want=1"
    );
    assert_eq!(message(rest(vec![])), "wrong number of arguments. got=0, want=1");
    assert_eq!(
        message(push(vec![ints(&[])])),
        "wrong number of arguments. got=1, want=2"
    );
}

#[test]
fn push_first_last_and_rest_fit_together() {
    for elements in [vec![], vec![1], vec![1, 2, 3], vec![5; 40]] {
        let array = ints(&elements);
        let pushed = push(vec![array.clone(), integer(99)]).unwrap();
        assert_eq!(
            len(vec![pushed.clone()]),
            Ok(integer(elements.len() as i64 + 1))
        );
        assert_eq!(last(vec![pushed.clone()]), Ok(integer(99)));
        let mut front = vec![99];
        front.extend(elements.iter());
        let with_front = ints(&front);
        assert_eq!(first(vec![with_front.clone()]), Ok(integer(99)));
        assert_eq!(rest(vec![with_front]), Ok(array.clone()));
        assert_eq!(array, ints(&elements));
    }
    assert_eq!(rest(vec![ints(&[1])]), Ok(ints(&[])));
}

#[test]
fn puts_prints_each_argument_on_its_own_line() {
    let mut output = vec!["before".to_string()];
    let result = puts(
        vec![integer(1), Object::String("two".to_string()), ints(&[3])],
        &mut output,
    );
    assert_eq!(result, Ok(Object::Null));
    assert_eq!(output, vec!["before", "1", "two", "[3]"]);
    let result = Builtin::Puts.call(vec![], &mut output);
    assert_eq!(result, Ok(Object::Null));
    assert_eq!(output.len(), 4);
    let result = Builtin::Len.call(vec![ints(&[1])], &mut output);
    assert_eq!(result, Ok(integer(1)));
    assert_eq!(output.len(), 4);
}
